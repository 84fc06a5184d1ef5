//! The binary64 number type and its operations.

use crate::num::rounding::{
    cell, in_cell, lemma_cell_exact, lemma_cell_halve, lemma_cell_intro, lemma_cell_rounds,
    lemma_cell_scale, lemma_cell_unscale, lemma_round_at, lemma_round_exact, lemma_round_is_near_enough, lemma_round_monotone,
    lemma_scaled_is_a_magnitude, lemma_units_at, lemma_units_increase, round, round_finite, units, BINADE, INFINITE,
};
use vstd::arithmetic::div_mod::{lemma_fundamental_div_mod, lemma_fundamental_div_mod_converse};
use vstd::arithmetic::power2::{lemma2_to64, lemma2_to64_rest, lemma_pow2_adds, lemma_pow2_pos, lemma_pow2_unfold, pow2};
use vstd::prelude::*;

verus! {

/// The sign bit.
pub const SIGN: u64 = 0x8000_0000_0000_0000;

/// The bit pattern that stands for every not-a-number result.
pub const NAN: u64 = 0x7ff8_0000_0000_0000;

/// The exponent of two that one is worth in units.
pub const ONE_EXPONENT: u32 = 1074;

/// A binary64 number, held by its bit pattern.
///
/// Arithmetic is exact up to one rounding to the nearest representable number,
/// ties to even. Every operation without a numeric result gives the bit pattern
/// `NAN`.
#[derive(Clone, Copy, Debug, PartialEq, Eq, Structural)]
pub struct Double {
    pub bits: u64,
}

/// The number with the given sign and magnitude.
pub open spec fn signed(negative: bool, magnitude: nat) -> Double {
    Double {
        bits: (if negative {
            SIGN + magnitude
        } else {
            magnitude as int
        }) as u64,
    }
}

pub open spec fn nan() -> Double {
    Double { bits: NAN }
}

/// The number nearest to `k` units over `d`, where `k` is not zero.
pub open spec fn rounded(k: int, d: nat) -> Double {
    if k < 0 {
        signed(true, round_finite((-k) as nat, d))
    } else {
        signed(false, round_finite(k as nat, d))
    }
}

impl Double {
    pub open spec fn negative(self) -> bool {
        self.bits >= SIGN
    }

    pub open spec fn magnitude(self) -> nat {
        if self.bits >= SIGN {
            (self.bits - SIGN) as nat
        } else {
            self.bits as nat
        }
    }

    pub open spec fn nan(self) -> bool {
        self.magnitude() > INFINITE
    }

    pub open spec fn infinite(self) -> bool {
        self.magnitude() == INFINITE
    }

    pub open spec fn finite(self) -> bool {
        self.magnitude() < INFINITE
    }

    pub open spec fn zero(self) -> bool {
        self.magnitude() == 0
    }

    /// The value of a finite number, in units.
    pub open spec fn value(self) -> int {
        if self.negative() {
            -(units(self.magnitude()) as int)
        } else {
            units(self.magnitude()) as int
        }
    }

    /// The place of a number among all that are not `NAN`: zero has one place
    /// whatever its sign.
    pub open spec fn place(self) -> int {
        if self.negative() {
            -(self.magnitude() as int)
        } else {
            self.magnitude() as int
        }
    }

    /// The place of a number in the total order, in which minus zero comes
    /// before zero and not-a-number patterns come at both ends.
    pub open spec fn total_place(self) -> int {
        if self.negative() {
            -1 - self.magnitude()
        } else {
            self.magnitude() as int
        }
    }

    pub open spec fn lt_spec(self, other: Double) -> bool {
        !self.nan() && !other.nan() && self.place() < other.place()
    }

    pub open spec fn le_spec(self, other: Double) -> bool {
        !self.nan() && !other.nan() && self.place() <= other.place()
    }

    pub open spec fn eq_spec(self, other: Double) -> bool {
        !self.nan() && !other.nan() && self.place() == other.place()
    }

    pub open spec fn neg_spec(self) -> Double {
        signed(!self.negative(), self.magnitude())
    }

    pub open spec fn abs_spec(self) -> Double {
        signed(false, self.magnitude())
    }

    pub open spec fn add_spec(self, other: Double) -> Double {
        if self.nan() || other.nan() {
            nan()
        } else if self.infinite() {
            if other.infinite() && self.negative() != other.negative() {
                nan()
            } else {
                self
            }
        } else if other.infinite() {
            other
        } else if self.value() + other.value() == 0 {
            signed(self.negative() && other.negative(), 0)
        } else {
            rounded(self.value() + other.value(), 1)
        }
    }

    pub open spec fn sub_spec(self, other: Double) -> Double {
        self.add_spec(other.neg_spec())
    }

    pub open spec fn mul_spec(self, other: Double) -> Double {
        let negative = self.negative() != other.negative();
        if self.nan() || other.nan() {
            nan()
        } else if self.infinite() || other.infinite() {
            if self.zero() || other.zero() {
                nan()
            } else {
                signed(negative, INFINITE as nat)
            }
        } else {
            signed(
                negative,
                round_finite(units(self.magnitude()) * units(other.magnitude()), pow2(ONE_EXPONENT as nat)),
            )
        }
    }

    pub open spec fn div_spec(self, other: Double) -> Double {
        let negative = self.negative() != other.negative();
        if self.nan() || other.nan() || (self.infinite() && other.infinite()) || (self.zero()
            && other.zero()) {
            nan()
        } else if self.infinite() || other.zero() {
            signed(negative, INFINITE as nat)
        } else if other.infinite() {
            signed(negative, 0)
        } else {
            signed(
                negative,
                round_finite(units(self.magnitude()) * pow2(ONE_EXPONENT as nat), units(other.magnitude())),
            )
        }
    }

    /// The larger of two numbers; the other one where one is not a number.
    pub open spec fn max_spec(self, other: Double) -> Double {
        if self.nan() || self.lt_spec(other) {
            other
        } else {
            self
        }
    }

    /// The smaller of two numbers; the other one where one is not a number.
    pub open spec fn min_spec(self, other: Double) -> Double {
        if self.nan() || other.lt_spec(self) {
            other
        } else {
            self
        }
    }

    /// How often one goes into the magnitude, and whether anything is left.
    pub open spec fn whole(self) -> nat {
        units(self.magnitude()) / pow2(ONE_EXPONENT as nat)
    }

    pub open spec fn fractional(self) -> bool {
        units(self.magnitude()) % pow2(ONE_EXPONENT as nat) != 0
    }

    /// The number with this one's sign and the whole number `n` as magnitude.
    pub open spec fn with_whole(self, n: nat) -> Double {
        signed(self.negative(), round_finite(n * pow2(ONE_EXPONENT as nat), 1))
    }

    pub open spec fn floor_spec(self) -> Double {
        if self.nan() {
            nan()
        } else if self.infinite() {
            self
        } else if self.negative() && self.fractional() {
            self.with_whole(self.whole() + 1)
        } else {
            self.with_whole(self.whole())
        }
    }

    pub open spec fn ceil_spec(self) -> Double {
        if self.nan() {
            nan()
        } else if self.infinite() {
            self
        } else if !self.negative() && self.fractional() {
            self.with_whole(self.whole() + 1)
        } else {
            self.with_whole(self.whole())
        }
    }

    /// The nearest whole number, halves away from zero.
    pub open spec fn round_spec(self) -> Double {
        let one = pow2(ONE_EXPONENT as nat);
        if self.nan() {
            nan()
        } else if self.infinite() {
            self
        } else {
            self.with_whole((2 * units(self.magnitude()) + one) / (2 * one))
        }
    }

    /// The whole part, cut off at `limit`; zero for a negative number and for
    /// what is not a number.
    pub open spec fn saturated(self, limit: nat) -> nat {
        if self.nan() || self.negative() {
            0
        } else if self.infinite() || self.whole() > limit {
            limit
        } else {
            self.whole()
        }
    }
}

/// The number nearest to a whole number.
pub open spec fn of_int(k: int) -> Double {
    if k == 0 {
        signed(false, 0)
    } else {
        rounded(k * pow2(ONE_EXPONENT as nat), 1)
    }
}

/// The order of numbers is the order of their values.
pub proof fn lemma_order_is_numeric(a: Double, b: Double)
    requires
        a.finite(),
        b.finite(),
    ensures
        a.lt_spec(b) <==> a.value() < b.value(),
        a.le_spec(b) <==> a.value() <= b.value(),
        a.eq_spec(b) <==> a.value() == b.value(),
{
    let x = a.magnitude();
    let y = b.magnitude();
    if x < y {
        lemma_units_increase(x, y);
    }
    if y < x {
        lemma_units_increase(y, x);
    }
    if x > 0 {
        lemma_units_increase(0, x);
    }
    if y > 0 {
        lemma_units_increase(0, y);
    }
}

/// Adding zero to a finite number changes nothing but the sign of a zero.
pub proof fn lemma_add_zero(a: Double, zero: Double)
    requires
        a.finite(),
        zero.zero(),
    ensures
        a.add_spec(zero).eq_spec(a),
        !a.zero() ==> a.add_spec(zero) == a,
{
    let m = a.magnitude();
    lemma_round_exact(m);
    if m > 0 {
        lemma_units_increase(0, m);
    }
}

/// A finite number less itself is zero.
pub proof fn lemma_sub_self(a: Double)
    requires
        a.finite(),
    ensures
        a.sub_spec(a) == signed(false, 0),
{
    assert(a.neg_spec().magnitude() == a.magnitude());
}

/// Addition does not depend on the order of its arguments.
pub proof fn lemma_add_commutes(a: Double, b: Double)
    ensures
        a.add_spec(b) == b.add_spec(a),
{
}

/// Multiplication does not depend on the order of its arguments.
pub proof fn lemma_mul_commutes(a: Double, b: Double)
    ensures
        a.mul_spec(b) == b.mul_spec(a),
{
    assert(units(a.magnitude()) * units(b.magnitude()) == units(b.magnitude()) * units(a.magnitude()))
        by (nonlinear_arith);
}

/// Adding the same number to two keeps their order, where both sums are
/// numbers.
pub proof fn lemma_add_monotone(a: Double, b: Double, c: Double)
    requires
        a.le_spec(b),
        !a.add_spec(c).nan(),
        !b.add_spec(c).nan(),
    ensures
        a.add_spec(c).le_spec(b.add_spec(c)),
{
    if a.finite() && b.finite() && c.finite() {
        lemma_order_is_numeric(a, b);
        let x = a.value() + c.value();
        let y = b.value() + c.value();
        if 0 < x {
            lemma_round_monotone(x as nat, y as nat, 1);
        } else if y < 0 {
            lemma_round_monotone((-y) as nat, (-x) as nat, 1);
        }
    }
}

/// Multiplying two numbers by a positive one keeps their order.
pub proof fn lemma_mul_monotone(a: Double, b: Double, c: Double)
    requires
        a.le_spec(b),
        !a.negative(),
        !b.negative(),
        c.finite(),
        !c.negative(),
        !c.zero(),
    ensures
        a.mul_spec(c).le_spec(b.mul_spec(c)),
{
    if b.finite() {
        lemma_order_is_numeric(a, b);
        let x = units(a.magnitude());
        let y = units(b.magnitude());
        let z = units(c.magnitude());
        assert(x * z <= y * z) by (nonlinear_arith)
            requires
                x <= y,
                0 <= z,
        ;
        lemma_pow2_pos(ONE_EXPONENT as nat);
        lemma_round_monotone(x * z, y * z, pow2(ONE_EXPONENT as nat));
    }
}

/// The numbers nearest to whole numbers are in their order.
pub proof fn lemma_of_int_monotone(a: int, b: int)
    requires
        a <= b,
    ensures
        of_int(a).le_spec(of_int(b)),
        0 <= a ==> !of_int(a).negative(),
{
    let one = pow2(ONE_EXPONENT as nat) as int;
    lemma_pow2_pos(ONE_EXPONENT as nat);
    assert(a * one <= b * one && (a > 0 ==> a * one > 0) && (b < 0 ==> b * one < 0) && (a < 0 ==> a * one < 0) && (b
        > 0 ==> b * one > 0)) by (nonlinear_arith)
        requires
            a <= b,
            one > 0,
    ;
    if 0 < a {
        lemma_round_monotone((a * one) as nat, (b * one) as nat, 1);
    } else if b < 0 {
        lemma_round_monotone((-(b * one)) as nat, (-(a * one)) as nat, 1);
    }
}

/// The size of a value.
pub open spec fn size(k: int) -> int {
    if k < 0 {
        -k
    } else {
        k
    }
}

/// What is bounded on both sides is bounded in size.
proof fn lemma_size_is_bounded(off: int, bound: int)
    requires
        -bound <= off * (2 * BINADE) <= bound,
    ensures
        size(off) * (2 * BINADE) <= bound,
{
    assert((-off) * (2 * BINADE) == -(off * (2 * BINADE))) by (nonlinear_arith);
}

/// A sum is off by at most one part in `2^53`.
pub proof fn lemma_add_is_near(a: Double, b: Double)
    requires
        a.finite(),
        b.finite(),
        a.add_spec(b).finite(),
    ensures
        size(a.add_spec(b).value() - (a.value() + b.value())) * (2 * BINADE) <= size(a.value() + b.value()),
{
    let k = a.value() + b.value();
    if k != 0 {
        let n = size(k) as nat;
        lemma_round_is_near_enough(n, 1);
        let m = round(n, 1);
        assert(a.add_spec(b).magnitude() == m);
        let u = units(m) as int;
        lemma_size_is_bounded(u - n, n as int);
        if k < 0 {
            assert(a.add_spec(b).value() - k == -(u - n));
        } else {
            assert(a.add_spec(b).value() - k == u - n);
        }
        assert(size(a.add_spec(b).value() - k) == size(u - n));
    } else {
        assert(units(0) == 0);
        assert(a.add_spec(b).magnitude() == 0);
        assert(a.add_spec(b).value() == 0);
    }
}

/// A product is off by at most one part in `2^53`, or by one unit.
pub proof fn lemma_mul_is_near(a: Double, b: Double)
    requires
        a.finite(),
        b.finite(),
        a.mul_spec(b).finite(),
    ensures
        size(a.mul_spec(b).value() * pow2(ONE_EXPONENT as nat) - a.value() * b.value()) * (2 * BINADE) <= size(
            a.value() * b.value(),
        ) + 2 * BINADE * pow2(ONE_EXPONENT as nat),
{
    let one = pow2(ONE_EXPONENT as nat);
    lemma_pow2_pos(ONE_EXPONENT as nat);
    let x = units(a.magnitude());
    let y = units(b.magnitude());
    let n = x * y;
    let m = round(n, one);
    lemma_round_is_near_enough(n, one);
    let t = a.mul_spec(b);
    assert(t.magnitude() == m);
    let u = units(m);
    let p = a.value() * b.value();
    let same_sign = a.negative() == b.negative();
    assert(p == (if same_sign {
        n as int
    } else {
        -(n as int)
    })) by (nonlinear_arith)
        requires
            p == a.value() * b.value(),
            n == x * y,
            a.value() == x || a.value() == -(x as int),
            b.value() == y || b.value() == -(y as int),
            same_sign ==> (a.value() == x && b.value() == y) || (a.value() == -(x as int) && b.value() == -(y as int)),
            !same_sign ==> (a.value() == x && b.value() == -(y as int)) || (a.value() == -(x as int) && b.value() == y),
    ;
    assert(n >= 0) by (nonlinear_arith)
        requires
            n == x * y,
            x >= 0,
            y >= 0,
    ;
    if same_sign {
        assert(t.value() * one == u * one);
    } else {
        assert(t.value() * one == -(u * one)) by (nonlinear_arith)
            requires
                t.value() == -(u as int),
        ;
    }
    let off = u * one - n;
    lemma_size_is_bounded(off, n + 2 * BINADE * one);
    assert(size(t.value() * one - p) == size(off));
    assert(size(p) == n);
}

/// A quotient by a positive number is off by at most one part in `2^53`, or by
/// one unit.
pub proof fn lemma_div_is_near(a: Double, b: Double)
    requires
        a.finite(),
        b.finite(),
        !b.negative(),
        !b.zero(),
        a.div_spec(b).finite(),
    ensures
        size(a.div_spec(b).value() * b.value() - a.value() * pow2(ONE_EXPONENT as nat)) * (2 * BINADE) <= size(
            a.value(),
        ) * pow2(ONE_EXPONENT as nat) + 2 * BINADE * b.value(),
{
    let one = pow2(ONE_EXPONENT as nat);
    lemma_pow2_pos(ONE_EXPONENT as nat);
    let x = units(a.magnitude());
    let y = units(b.magnitude());
    lemma_units_increase(0, b.magnitude());
    let n = x * one;
    let m = round(n, y);
    lemma_round_is_near_enough(n, y);
    let q = a.div_spec(b);
    assert(q.magnitude() == m);
    let u = units(m);
    let off = u * y - n;
    if a.negative() {
        assert(q.value() * y == -(u * y)) by (nonlinear_arith)
            requires
                q.value() == -(u as int),
        ;
        assert(a.value() * one == -(n as int)) by (nonlinear_arith)
            requires
                a.value() == -(x as int),
                n == x * one,
        ;
    } else {
        assert(q.value() * y == u * y);
        assert(a.value() * one == n);
    }
    lemma_size_is_bounded(off, n + 2 * BINADE * y);
    assert(size(q.value() * y - a.value() * one) == size(off));
    assert(size(a.value()) == x);
}

/// The whole part of a number that is not negative has a representation of its
/// own: taking it rounds nothing.
pub proof fn lemma_floor_is_exact(x: Double)
    requires
        x.finite(),
        !x.negative(),
    ensures
        x.floor_spec().finite(),
        !x.floor_spec().negative(),
        x.floor_spec().value() == x.whole() * pow2(ONE_EXPONENT as nat),
        x.floor_spec().le_spec(x),
        !x.fractional() ==> x.floor_spec() == x,
        x.fractional() ==> x.floor_spec().lt_spec(x),
{
    let m = x.magnitude();
    let one = pow2(ONE_EXPONENT as nat);
    lemma_pow2_pos(ONE_EXPONENT as nat);
    let u = units(m);
    let w = x.whole();
    lemma_fundamental_div_mod(u as int, one as int);
    assert(u == w * one + u % one) by (nonlinear_arith)
        requires
            u == one * w + u % one,
    ;
    if x.fractional() {
        let e: nat = if m < 2 * BINADE {
            0
        } else {
            (m / (BINADE as nat) - 1) as nat
        };
        let f = (m - e * BINADE) as nat;
        lemma_units_at(m, e, f);
        if e >= ONE_EXPONENT {
            let k = (e - ONE_EXPONENT) as nat;
            lemma_pow2_adds(ONE_EXPONENT as nat, k);
            assert(u == (f * pow2(k)) * one + 0) by (nonlinear_arith)
                requires
                    u == f * pow2(e),
                    pow2(e) == one * pow2(k),
            ;
            lemma_fundamental_div_mod_converse(u as int, one as int, (f * pow2(k)) as int, 0);
        } else {
            let k = (ONE_EXPONENT - e) as nat;
            lemma_pow2_adds(e, k);
            lemma_pow2_pos(k);
            lemma_pow2_pos(e);
            let p = pow2(k);
            let q = f / p;
            let r = f % p;
            lemma_fundamental_div_mod(f as int, p as int);
            assert(u == q * one + r * pow2(e) && 0 <= r * pow2(e) < one && (q * p) * pow2(e) == q * one) by (nonlinear_arith)
                requires
                    u == f * pow2(e),
                    one == pow2(e) * p,
                    f == p * q + r,
                    0 <= r < p,
                    pow2(e) > 0,
            ;
            lemma_fundamental_div_mod_converse(u as int, one as int, q as int, (r * pow2(e)) as int);
            assert(q * p <= f) by (nonlinear_arith)
                requires
                    f == p * q + r,
                    0 <= r,
            ;
            let c = lemma_scaled_is_a_magnitude(q * p, e);
            lemma_round_exact(c);
            if c >= m {
                if c > m {
                    lemma_units_increase(m, c);
                }
            }
        }
    } else {
        lemma_round_exact(m);
    }
}

/// The quotient `n / d` seen on the grid of `2^exponent`: numerator.
spec fn grid_n(n: nat, exponent: int) -> nat {
    if exponent < 0 {
        n * pow2((-exponent) as nat)
    } else {
        n
    }
}

/// The quotient `n / d` seen on the grid of `2^exponent`: denominator.
spec fn grid_d(d: nat, exponent: int) -> nat {
    if exponent > 0 {
        d * pow2(exponent as nat)
    } else {
        d
    }
}

proof fn lemma_grid_positive(d: nat, exponent: int)
    requires
        d > 0,
    ensures
        grid_d(d, exponent) > 0,
{
    if exponent > 0 {
        lemma_pow2_pos(exponent as nat);
        assert(d * pow2(exponent as nat) > 0) by (nonlinear_arith)
            requires
                d > 0,
                pow2(exponent as nat) > 0,
        ;
    }
}

/// One step to a grid twice as wide.
proof fn lemma_grid_step(n: nat, d: nat, exponent: int, q: nat, half: bool, more: bool)
    requires
        d > 0,
        cell(grid_n(n, exponent) as int, grid_d(d, exponent) as int, q as int, half, more),
    ensures
        cell(
            grid_n(n, exponent + 1) as int,
            grid_d(d, exponent + 1) as int,
            (q / 2) as int,
            q % 2 == 1,
            half || more,
        ),
{
    let gn = grid_n(n, exponent) as int;
    let gd = grid_d(d, exponent) as int;
    lemma_cell_halve(gn, gd, q as int, half, more);
    lemma2_to64();
    if exponent >= 0 {
        lemma_pow2_unfold((exponent + 1) as nat);
        assert(grid_d(d, exponent + 1) == 2 * gd) by {
            if exponent == 0 {
                assert(d * pow2(1) == 2 * d) by (nonlinear_arith)
                    requires
                        pow2(1) == 2,
                ;
            } else {
                assert(d * pow2((exponent + 1) as nat) == 2 * (d * pow2(exponent as nat))) by (nonlinear_arith)
                    requires
                        pow2((exponent + 1) as nat) == 2 * pow2(exponent as nat),
                ;
            }
        }
    } else {
        lemma_pow2_unfold((-exponent) as nat);
        let next = grid_n(n, exponent + 1) as int;
        assert(gn == next * 2) by {
            if exponent == -1 {
                assert(n * pow2(1) == n * 2) by (nonlinear_arith)
                    requires
                        pow2(1) == 2,
                ;
            } else {
                assert(n * pow2((-exponent) as nat) == (n * pow2((-exponent - 1) as nat)) * 2)
                    by (nonlinear_arith)
                    requires
                        pow2((-exponent) as nat) == 2 * pow2((-exponent - 1) as nat),
                ;
            }
        }
        assert(gd == d && grid_d(d, exponent + 1) == d);
        lemma_cell_unscale(next, d as int, (q / 2) as int, q % 2 == 1, half || more, 2);
    }
}

/// A whole quotient on a grid stays whole on the grid half as wide.
proof fn lemma_grid_refine(n: nat, d: nat, exponent: int, q: nat)
    requires
        d > 0,
        exponent > 0,
        cell(grid_n(n, exponent) as int, grid_d(d, exponent) as int, q as int, false, false),
    ensures
        cell(grid_n(n, exponent - 1) as int, grid_d(d, exponent - 1) as int, (2 * q) as int, false, false),
{
    lemma2_to64();
    lemma_pow2_unfold(exponent as nat);
    lemma_grid_positive(d, exponent - 1);
    let gd = grid_d(d, exponent);
    let ng = grid_d(d, exponent - 1);
    assert(gd == 2 * ng) by {
        if exponent == 1 {
            assert(d * pow2(1) == 2 * d) by (nonlinear_arith)
                requires
                    pow2(1) == 2,
            ;
        } else {
            assert(d * pow2(exponent as nat) == 2 * (d * pow2((exponent - 1) as nat))) by (nonlinear_arith)
                requires
                    pow2(exponent as nat) == 2 * pow2((exponent - 1) as nat),
            ;
        }
    }
    let r = choose|r: int| #[trigger] in_cell(n as int, gd as int, q as int, false, false, r);
    assert(r == 0);
    assert(n == (2 * q) * ng) by (nonlinear_arith)
        requires
            n == q * gd + r,
            r == 0,
            gd == 2 * ng,
    ;
    lemma_cell_exact((2 * q) as int, ng as int);
}

/// Rounds `n / d` units, given where it lies on the grid of `2^exponent`.
fn round_on_grid(
    q: u128,
    exponent: i32,
    half: bool,
    more: bool,
    Ghost(n): Ghost<nat>,
    Ghost(d): Ghost<nat>,
) -> (magnitude: u64)
    requires
        d > 0,
        -5000 <= exponent <= 3100,
        cell(grid_n(n, exponent as int) as int, grid_d(d, exponent as int) as int, q as int, half, more),
        half || more ==> q >= 2 * BINADE,
    ensures
        magnitude == round_finite(n, d),
{
    let mut q = q;
    let mut exponent = exponent;
    let mut half = half;
    let mut more = more;
    let two: u128 = 2 * (BINADE as u128);
    while q >= two || exponent < 0
        invariant
            two == 2 * BINADE,
            d > 0,
            -5000 <= exponent <= 3300,
            q < 2 * BINADE || exponent <= 3100 || q * pow2((exponent - 3100) as nat) <= u128::MAX,
            cell(grid_n(n, exponent as int) as int, grid_d(d, exponent as int) as int, q as int, half, more),
            half || more ==> q >= BINADE || exponent <= 0,
        decreases q, 4000 - exponent,
    {
        proof {
            lemma_grid_step(n, d, exponent as int, q as nat, half, more);
            lemma2_to64();
            if exponent >= 3100 {
                let e = (exponent - 3100) as nat;
                lemma_pow2_unfold((e + 1) as nat);
                lemma_pow2_pos(e);
                if e >= 128 {
                    lemma_pow2_adds(128, (e - 128) as nat);
                    lemma_pow2_adds(64, 64);
                    lemma_pow2_pos((e - 128) as nat);
                    assert(q * pow2(e) > u128::MAX) by (nonlinear_arith)
                        requires
                            q >= 1,
                            pow2(e) == pow2(128) * pow2((e - 128) as nat),
                            pow2(128) == 0x1_0000_0000_0000_0000 * 0x1_0000_0000_0000_0000,
                            pow2((e - 128) as nat) >= 1,
                    ;
                    assert(false);
                }
                assert((q / 2) * pow2((e + 1) as nat) <= q * pow2(e)) by (nonlinear_arith)
                    requires
                        pow2((e + 1) as nat) == 2 * pow2(e),
                        (q / 2) * 2 <= q,
                ;
                if e == 0 {
                    assert(q * pow2(e) == q) by (nonlinear_arith)
                        requires
                            pow2(e) == 1,
                    ;
                }
            }
        }
        let bit: bool = q % 2 == 1;
        more = half || more;
        half = bit;
        q = q / 2;
        exponent = exponent + 1;
    }
    let one: u128 = BINADE as u128;
    while exponent > 0 && q < one
        invariant
            one == BINADE,
            d > 0,
            0 <= exponent <= 3300,
            q < 2 * BINADE,
            cell(grid_n(n, exponent as int) as int, grid_d(d, exponent as int) as int, q as int, half, more),
            half || more ==> q >= BINADE || exponent <= 0,
        decreases exponent,
    {
        proof {
            lemma_grid_refine(n, d, exponent as int, q as nat);
        }
        q = q * 2;
        exponent = exponent - 1;
    }
    proof {
        let k = exponent as nat;
        lemma2_to64();
        assert(d * pow2(0) == d) by (nonlinear_arith)
            requires
                pow2(0) == 1,
        ;
        let g = d * pow2(k);
        assert(grid_d(d, exponent as int) == g);
        let r = choose|r: int| #[trigger] in_cell(n as int, g as int, q as int, half, more, r);
        assert(n < g * 2 * BINADE) by (nonlinear_arith)
            requires
                n == q * g + r,
                r < g,
                q < 2 * BINADE,
                q >= 0,
        ;
        assert(k > 0 ==> n >= g * BINADE) by (nonlinear_arith)
            requires
                n == q * g + r,
                r >= 0,
                k > 0 ==> q >= BINADE,
                g >= 0,
        ;
        lemma_round_at(n, d, k);
        lemma_cell_rounds(n, g, q as nat, half, more);
    }
    let up: u64 = if half && (more || q % 2 == 1) {
        1
    } else {
        0
    };
    let magnitude: u64 = exponent as u64 * BINADE + q as u64 + up;
    if magnitude < INFINITE {
        magnitude
    } else {
        INFINITE
    }
}

/// A finite magnitude as a whole number below `2^53` and an exponent of two.
pub fn split(m: u64) -> (parts: (u64, u32))
    requires
        m < INFINITE,
    ensures
        parts.0 < 2 * BINADE,
        parts.1 > 0 ==> parts.0 >= BINADE,
        parts.1 <= 2045,
        units(m as nat) == parts.0 * pow2(parts.1 as nat),
        parts.0 == 0 <==> m == 0,
{
    let field: u64 = m / BINADE;
    if field <= 1 {
        proof {
            lemma_units_at(m as nat, 0, m as nat);
        }
        (m, 0)
    } else {
        let e: u64 = field - 1;
        let f: u64 = m - e * BINADE;
        proof {
            lemma_units_at(m as nat, e as nat, f as nat);
        }
        (f, e as u32)
    }
}

fn build(negative: bool, magnitude: u64) -> (number: Double)
    requires
        magnitude <= INFINITE,
    ensures
        number == signed(negative, magnitude as nat),
{
    if negative {
        Double { bits: SIGN + magnitude }
    } else {
        Double { bits: magnitude }
    }
}

/// Where `m * 2^e` units lie on the grid of `2^(e + steps)`.
fn widen(m: u64, e: u32, steps: u32) -> (cell_parts: (u64, bool, bool))
    requires
        m < 2 * BINADE,
        e <= 3000,
        steps <= 3000,
    ensures
        cell(
            m * pow2(e as nat),
            pow2((e + steps) as nat) as int,
            cell_parts.0 as int,
            cell_parts.1,
            cell_parts.2,
        ),
        cell_parts.0 <= m,
        steps > 0 ==> 2 * cell_parts.0 <= m,
{
    let mut q: u64 = m;
    let mut half: bool = false;
    let mut more: bool = false;
    let mut i: u32 = 0;
    let ghost n = m * pow2(e as nat);
    proof {
        lemma_pow2_pos(e as nat);
        lemma_cell_exact(m as int, pow2(e as nat) as int);
    }
    while i < steps
        invariant
            i <= steps <= 3000,
            e <= 3000,
            q <= m < 2 * BINADE,
            i > 0 ==> 2 * q <= m,
            cell(n, pow2((e + i) as nat) as int, q as int, half, more),
        decreases steps - i,
    {
        proof {
            lemma_cell_halve(n, pow2((e + i) as nat) as int, q as int, half, more);
            lemma_pow2_unfold((e + i + 1) as nat);
        }
        let bit: bool = q % 2 == 1;
        more = half || more;
        half = bit;
        q = q / 2;
        i = i + 1;
    }
    (q, half, more)
}

/// The magnitude of `high + low`, or of `high - low` where `minus` is set, of
/// two magnitudes given by their parts; `high` has the larger exponent. The
/// second result says whether the difference is below zero.
fn combine(mh: u64, eh: u32, ml: u64, el: u32, minus: bool) -> (result: (u64, bool))
    requires
        mh < 2 * BINADE,
        ml < 2 * BINADE,
        el <= eh <= 2045,
        eh > 0 ==> mh >= BINADE,
    ensures
        ({
            let h = mh * pow2(eh as nat);
            let l = ml * pow2(el as nat);
            let k = if minus {
                h - l
            } else {
                h + l
            };
            &&& result.1 == (k < 0)
            &&& result.0 == round_finite(
                (if k < 0 {
                    -k
                } else {
                    k
                }) as nat,
                1,
            )
        }),
{
    let ghost h = mh * pow2(eh as nat);
    let ghost l = ml * pow2(el as nat);
    let gap: u32 = eh - el;
    proof {
        lemma2_to64();
        lemma2_to64_rest();
        lemma_pow2_pos(eh as nat);
        lemma_pow2_pos(el as nat);
        lemma_pow2_pos(gap as nat);
        lemma_pow2_adds(gap as nat, el as nat);
    }
    if gap <= 60 {
        let mut scaled: u128 = mh as u128;
        let mut i: u32 = 0;
        proof {
            assert(mh * pow2(0) == mh) by (nonlinear_arith)
                requires
                    pow2(0) == 1,
            ;
        }
        while i < gap
            invariant
                i <= gap <= 60,
                mh < 2 * BINADE,
                scaled == mh * pow2(i as nat),
                scaled < 0x20_0000_0000_0000 * pow2(i as nat),
                pow2(i as nat) <= pow2(60),
                pow2(60) == 0x1000_0000_0000_0000,
            decreases gap - i,
        {
            proof {
                lemma_pow2_unfold((i + 1) as nat);
                if i + 1 < 60 {
                    vstd::arithmetic::power2::lemma_pow2_strictly_increases((i + 1) as nat, 60);
                }
                assert(mh * pow2((i + 1) as nat) == 2 * (mh * pow2(i as nat))) by (nonlinear_arith)
                    requires
                        pow2((i + 1) as nat) == 2 * pow2(i as nat),
                ;
            }
            scaled = scaled * 2;
            i = i + 1;
        }
        proof {
            assert(h == scaled * pow2(el as nat)) by (nonlinear_arith)
                requires
                    h == mh * pow2(eh as nat),
                    pow2(eh as nat) == pow2(gap as nat) * pow2(el as nat),
                    scaled == mh * pow2(gap as nat),
            ;
        }
        let below: bool = minus && scaled < ml as u128;
        let q: u128 = if !minus {
            scaled + ml as u128
        } else if below {
            ml as u128 - scaled
        } else {
            scaled - ml as u128
        };
        let ghost k = if minus {
            h - l
        } else {
            h + l
        };
        let ghost n = (if k < 0 {
            -k
        } else {
            k
        }) as nat;
        proof {
            let p = pow2(el as nat) as int;
            assert(minus ==> k == (scaled - ml) * p) by (nonlinear_arith)
                requires
                    minus ==> k == scaled * p - ml * p,
            ;
            assert(!minus ==> k == (scaled + ml) * p) by (nonlinear_arith)
                requires
                    !minus ==> k == scaled * p + ml * p,
            ;
            assert(below ==> k < 0) by (nonlinear_arith)
                requires
                    below ==> k == (scaled - ml) * p && scaled < ml,
                    p > 0,
            ;
            assert(!below ==> k >= 0) by (nonlinear_arith)
                requires
                    minus ==> k == (scaled - ml) * p,
                    !minus ==> k == (scaled + ml) * p,
                    !below && minus ==> scaled >= ml,
                    scaled >= 0,
                    ml >= 0,
                    p > 0,
            ;
            assert(n == q * p) by (nonlinear_arith)
                requires
                    minus ==> k == (scaled - ml) * p,
                    !minus ==> k == (scaled + ml) * p,
                    k < 0 ==> n == -k,
                    k >= 0 ==> n == k,
                    below ==> q == ml - scaled && k < 0 && minus,
                    !below && minus ==> q == scaled - ml && k >= 0,
                    !minus ==> q == scaled + ml && k >= 0,
            ;
            lemma_cell_exact(q as int, p);
            assert(1 * pow2(el as nat) == pow2(el as nat));
            assert(grid_d(1, el as int) == p);
        }
        let magnitude: u64 = round_on_grid(q, el as i32, false, false, Ghost(n), Ghost(1));
        (magnitude, below)
    } else {
        let lift: u128 = 0x1000_0000_0000_0000;
        let scaled: u128 = mh as u128 * lift;
        let base: u32 = eh - 60;
        let steps: u32 = gap - 60;
        let (ql, lh, lm) = widen(ml, el, steps);
        let ghost g = pow2(base as nat) as int;
        let ghost r = choose|r: int| #[trigger] in_cell(l, g, ql as int, lh, lm, r);
        proof {
            assert(el + steps == base);
            lemma_pow2_pos(base as nat);
            lemma_pow2_adds(60, base as nat);
            assert(h == scaled * g) by (nonlinear_arith)
                requires
                    h == mh * pow2(eh as nat),
                    pow2(eh as nat) == 0x1000_0000_0000_0000 * g,
                    scaled == mh * 0x1000_0000_0000_0000,
            ;
            assert(1 * pow2(base as nat) == pow2(base as nat));
            assert(grid_d(1, base as int) == g);
        }
        if !minus {
            proof {
                assert(h + l == (scaled + ql) * g + r) by (nonlinear_arith)
                    requires
                        h == scaled * g,
                        l == ql * g + r,
                ;
                lemma_cell_intro(h + l, g, scaled + ql, lh, lm, r);
            }
            let magnitude: u64 = round_on_grid(
                scaled + ql as u128,
                base as i32,
                lh,
                lm,
                Ghost((h + l) as nat),
                Ghost(1),
            );
            (magnitude, false)
        } else if !lh && !lm {
            proof {
                assert(h - l == (scaled - ql) * g && h - l >= 0) by (nonlinear_arith)
                    requires
                        h == scaled * g,
                        l == ql * g + r,
                        r == 0,
                        scaled >= ql,
                        g > 0,
                ;
                lemma_cell_exact(scaled - ql, g);
            }
            let magnitude: u64 = round_on_grid(
                scaled - ql as u128,
                base as i32,
                false,
                false,
                Ghost((h - l) as nat),
                Ghost(1),
            );
            (magnitude, false)
        } else {
            let half: bool = !(lh && lm);
            let more: bool = !(lh && !lm);
            proof {
                assert(h - l == (scaled - ql - 1) * g + (g - r) && h - l >= 0) by (nonlinear_arith)
                    requires
                        h == scaled * g,
                        l == ql * g + r,
                        scaled >= ql + 1,
                        g > r >= 0,
                ;
                lemma_cell_intro(h - l, g, scaled - ql - 1, half, more, g - r);
            }
            let magnitude: u64 = round_on_grid(
                scaled - ql as u128 - 1,
                base as i32,
                half,
                more,
                Ghost((h - l) as nat),
                Ghost(1),
            );
            (magnitude, false)
        }
    }
}

/// The exact product of two magnitudes, rounded.
fn product(a: u64, b: u64) -> (magnitude: u64)
    requires
        a < INFINITE,
        b < INFINITE,
    ensures
        magnitude == round_finite(units(a as nat) * units(b as nat), pow2(ONE_EXPONENT as nat)),
{
    let (ma, ea) = split(a);
    let (mb, eb) = split(b);
    proof {
        assert(ma * mb < 0x20_0000_0000_0000 * 0x20_0000_0000_0000) by (nonlinear_arith)
            requires
                0 <= ma < 0x20_0000_0000_0000,
                0 <= mb < 0x20_0000_0000_0000,
        ;
    }
    let q: u128 = ma as u128 * mb as u128;
    let exponent: i32 = ea as i32 + eb as i32 - ONE_EXPONENT as i32;
    let ghost n = units(a as nat) * units(b as nat);
    let ghost d = pow2(ONE_EXPONENT as nat);
    proof {
        let e = (ea + eb) as nat;
        lemma_pow2_adds(ea as nat, eb as nat);
        lemma_pow2_pos(ONE_EXPONENT as nat);
        lemma_pow2_pos(e);
        assert(n == q * pow2(e)) by (nonlinear_arith)
            requires
                n == (ma * pow2(ea as nat)) * (mb * pow2(eb as nat)),
                pow2(e) == pow2(ea as nat) * pow2(eb as nat),
                q == ma * mb,
        ;
        if exponent >= 0 {
            lemma_pow2_adds(ONE_EXPONENT as nat, exponent as nat);
            if exponent == 0 {
                assert(grid_d(d, exponent as int) == pow2(e));
            } else {
                assert(grid_d(d, exponent as int) == pow2(e));
            }
            lemma_cell_exact(q as int, pow2(e) as int);
        } else {
            lemma_pow2_adds(e, (-exponent) as nat);
            assert(grid_n(n, exponent as int) == q * d) by (nonlinear_arith)
                requires
                    grid_n(n, exponent as int) == n * pow2((-exponent) as nat),
                    n == q * pow2(e),
                    d == pow2(e) * pow2((-exponent) as nat),
            ;
            lemma_cell_exact(q as int, d as int);
        }
    }
    round_on_grid(q, exponent, false, false, Ghost(n), Ghost(d))
}

/// The exact quotient of two magnitudes, rounded.
fn quotient(a: u64, b: u64) -> (magnitude: u64)
    requires
        a < INFINITE,
        0 < b < INFINITE,
    ensures
        magnitude == round_finite(units(a as nat) * pow2(ONE_EXPONENT as nat), units(b as nat)),
{
    let (ma, ea) = split(a);
    let (mb, eb) = split(b);
    let ghost n = units(a as nat) * pow2(ONE_EXPONENT as nat);
    let ghost d = units(b as nat);
    proof {
        lemma2_to64();
        lemma2_to64_rest();
        lemma_pow2_pos(eb as nat);
        assert(d > 0) by (nonlinear_arith)
            requires
                d == mb * pow2(eb as nat),
                mb > 0,
                pow2(eb as nat) > 0,
        ;
    }
    if ma == 0 {
        proof {
            assert(n == 0) by (nonlinear_arith)
                requires
                    n == (ma * pow2(ea as nat)) * pow2(ONE_EXPONENT as nat),
                    ma == 0,
            ;
            lemma_cell_exact(0, d as int);
        }
        return round_on_grid(0, 0, false, false, Ghost(n), Ghost(d));
    }
    let mut lifted: u64 = ma;
    let mut k: u32 = 0;
    while lifted < BINADE
        invariant
            0 < lifted < 2 * BINADE,
            lifted == ma * pow2(k as nat),
            k <= 52,
            pow2(k as nat) <= lifted,
            pow2(52) == BINADE,
        decreases 2 * BINADE - lifted,
    {
        proof {
            if k == 52 {
                assert(false);
            }
            lemma_pow2_unfold((k + 1) as nat);
            assert(ma * pow2((k + 1) as nat) == 2 * (ma * pow2(k as nat))) by (nonlinear_arith)
                requires
                    pow2((k + 1) as nat) == 2 * pow2(k as nat),
            ;
        }
        lifted = lifted * 2;
        k = k + 1;
    }
    let lift: u128 = 0x400_0000_0000_0000_0000;
    let num: u128 = lifted as u128 * lift;
    let q: u128 = num / mb as u128;
    let r: u128 = num % mb as u128;
    let half: bool = 2 * r >= mb as u128;
    let more: bool = if half {
        2 * r != mb as u128
    } else {
        r != 0
    };
    let exponent: i32 = ea as i32 - k as i32 - 74 - eb as i32 + ONE_EXPONENT as i32;
    proof {
        assert(pow2(74) == 0x400_0000_0000_0000_0000) by {
            lemma_pow2_adds(64, 10);
        }
        vstd::arithmetic::div_mod::lemma_fundamental_div_mod(num as int, mb as int);
        assert(num == q * mb + r) by (nonlinear_arith)
            requires
                num == mb * q + r,
        ;
        lemma_cell_intro(num as int, mb as int, q as int, half, more, r as int);
        assert(q >= 2 * BINADE) by (nonlinear_arith)
            requires
                num == q * mb + r,
                r < mb,
                mb < 0x20_0000_0000_0000,
                num >= 0x10_0000_0000_0000 * 0x400_0000_0000_0000_0000,
        ;
        let f = (ea + ONE_EXPONENT - k - 74) as nat;
        lemma_pow2_pos(f);
        lemma_pow2_adds(k as nat, 74);
        lemma_pow2_adds((k + 74) as nat, f);
        lemma_pow2_adds(ea as nat, ONE_EXPONENT as nat);
        assert(n == num * pow2(f)) by (nonlinear_arith)
            requires
                n == (ma * pow2(ea as nat)) * pow2(ONE_EXPONENT as nat),
                num == (ma * pow2(k as nat)) * pow2(74),
                pow2(ea as nat) * pow2(ONE_EXPONENT as nat) == (pow2(k as nat) * pow2(74)) * pow2(f),
        ;
        if exponent >= 0 {
            lemma_cell_scale(num as int, mb as int, q as int, half, more, pow2(f) as int);
            lemma_pow2_adds(eb as nat, exponent as nat);
            assert(grid_d(d, exponent as int) == mb * pow2(f)) by {
                if exponent > 0 {
                    assert(d * pow2(exponent as nat) == mb * pow2(f)) by (nonlinear_arith)
                        requires
                            d == mb * pow2(eb as nat),
                            pow2(f) == pow2(eb as nat) * pow2(exponent as nat),
                    ;
                }
            }
        } else {
            let x = (-exponent) as nat;
            lemma_cell_scale(num as int, mb as int, q as int, half, more, pow2(eb as nat) as int);
            lemma_pow2_adds(f, x);
            assert(grid_n(n, exponent as int) == num * pow2(eb as nat)) by (nonlinear_arith)
                requires
                    grid_n(n, exponent as int) == n * pow2(x),
                    n == num * pow2(f),
                    pow2(eb as nat) == pow2(f) * pow2(x),
            ;
        }
    }
    round_on_grid(q, exponent, half, more, Ghost(n), Ghost(d))
}

/// The magnitude of the whole number `n`.
fn whole_magnitude(n: u64) -> (magnitude: u64)
    ensures
        magnitude == round_finite(n as nat * pow2(ONE_EXPONENT as nat), 1),
{
    proof {
        lemma_pow2_pos(ONE_EXPONENT as nat);
        lemma_cell_exact(n as int, pow2(ONE_EXPONENT as nat) as int);
        assert(grid_d(1, ONE_EXPONENT as int) == pow2(ONE_EXPONENT as nat));
    }
    round_on_grid(
        n as u128,
        ONE_EXPONENT as i32,
        false,
        false,
        Ghost(n as nat * pow2(ONE_EXPONENT as nat)),
        Ghost(1),
    )
}

/// A magnitude below `2^53` as a whole part, with what is left of it: whether
/// that is at least a half, and whether there is more.
fn whole_part(m: u64) -> (parts: Option<(u64, bool, bool)>)
    requires
        m < INFINITE,
    ensures
        parts matches Some(p) ==> p.0 < 2 * BINADE && cell(
            units(m as nat) as int,
            pow2(ONE_EXPONENT as nat) as int,
            p.0 as int,
            p.1,
            p.2,
        ),
        parts is None ==> units(m as nat) % pow2(ONE_EXPONENT as nat) == 0 && units(m as nat) >= BINADE
            * pow2(ONE_EXPONENT as nat),
{
    let (f, e) = split(m);
    proof {
        lemma_pow2_pos(ONE_EXPONENT as nat);
        lemma2_to64();
    }
    if e < ONE_EXPONENT {
        let (q, half, more) = widen(f, e, ONE_EXPONENT - e);
        Some((q, half, more))
    } else {
        proof {
            let k = (e - ONE_EXPONENT) as nat;
            let one = pow2(ONE_EXPONENT as nat);
            lemma_pow2_adds(k, ONE_EXPONENT as nat);
            lemma_pow2_pos(k);
            assert(units(m as nat) == (f * pow2(k)) * one) by (nonlinear_arith)
                requires
                    units(m as nat) == f * pow2(e as nat),
                    pow2(e as nat) == pow2(k) * one,
            ;
            vstd::arithmetic::div_mod::lemma_mod_multiples_basic((f * pow2(k)) as int, one as int);
            assert(units(m as nat) >= BINADE * one) by (nonlinear_arith)
                requires
                    units(m as nat) == (f * pow2(k)) * one,
                    f >= BINADE,
                    pow2(k) >= 1,
                    one >= 1,
            ;
        }
        None
    }
}

/// A whole number rounds to itself.
proof fn lemma_whole(x: Double)
    requires
        x.finite(),
        !x.fractional(),
    ensures
        x.with_whole(x.whole()) == x,
{
    let one = pow2(ONE_EXPONENT as nat);
    lemma_pow2_pos(ONE_EXPONENT as nat);
    vstd::arithmetic::div_mod::lemma_fundamental_div_mod(units(x.magnitude()) as int, one as int);
    assert(x.whole() * one == units(x.magnitude())) by (nonlinear_arith)
        requires
            units(x.magnitude()) == one * x.whole(),
    ;
    lemma_round_exact(x.magnitude());
}

/// What a cell on the grid of one says of the whole part.
proof fn lemma_whole_cell(x: Double, q: nat, half: bool, more: bool)
    requires
        cell(units(x.magnitude()) as int, pow2(ONE_EXPONENT as nat) as int, q as int, half, more),
    ensures
        x.whole() == q,
        x.fractional() == (half || more),
        (2 * units(x.magnitude()) + pow2(ONE_EXPONENT as nat)) / (2 * pow2(ONE_EXPONENT as nat)) == if half {
            q + 1
        } else {
            q
        },
{
    let n = units(x.magnitude()) as int;
    let one = pow2(ONE_EXPONENT as nat) as int;
    let r = choose|r: int| #[trigger] in_cell(n, one, q as int, half, more, r);
    vstd::arithmetic::div_mod::lemma_fundamental_div_mod_converse(n, one, q as int, r);
    if half {
        assert(2 * n + one == (q + 1) * (2 * one) + (2 * r - one)) by (nonlinear_arith)
            requires
                n == q * one + r,
        ;
        vstd::arithmetic::div_mod::lemma_fundamental_div_mod_converse(
            2 * n + one,
            2 * one,
            (q + 1) as int,
            2 * r - one,
        );
    } else {
        assert(2 * n + one == q * (2 * one) + (2 * r + one)) by (nonlinear_arith)
            requires
                n == q * one + r,
        ;
        vstd::arithmetic::div_mod::lemma_fundamental_div_mod_converse(
            2 * n + one,
            2 * one,
            q as int,
            2 * r + one,
        );
    }
}

/// A whole number is its own rounding.
proof fn lemma_whole_round(x: Double)
    requires
        !x.fractional(),
    ensures
        (2 * units(x.magnitude()) + pow2(ONE_EXPONENT as nat)) / (2 * pow2(ONE_EXPONENT as nat)) == x.whole(),
{
    let one = pow2(ONE_EXPONENT as nat);
    lemma_pow2_pos(ONE_EXPONENT as nat);
    let n = units(x.magnitude()) as int;
    vstd::arithmetic::div_mod::lemma_fundamental_div_mod(n, one as int);
    assert(n == x.whole() * one + 0) by (nonlinear_arith)
        requires
            n == one * x.whole(),
    ;
    lemma_cell_intro(n, one as int, x.whole() as int, false, false, 0);
    lemma_whole_cell(x, x.whole(), false, false);
}

impl Double {
    /// The number with the given bit pattern.
    pub fn from_bits(bits: u64) -> (number: Double)
        ensures
            number.bits == bits,
    {
        Double { bits }
    }

    pub fn is_negative(self) -> (b: bool)
        ensures
            b == self.negative(),
    {
        self.bits >= SIGN
    }

    pub fn magnitude_bits(self) -> (m: u64)
        ensures
            m == self.magnitude(),
            m < SIGN,
    {
        if self.bits >= SIGN {
            self.bits - SIGN
        } else {
            self.bits
        }
    }

    pub fn is_nan(self) -> (b: bool)
        ensures
            b == self.nan(),
    {
        self.magnitude_bits() > INFINITE
    }

    pub fn is_finite(self) -> (b: bool)
        ensures
            b == self.finite(),
    {
        self.magnitude_bits() < INFINITE
    }

    pub fn is_infinite(self) -> (b: bool)
        ensures
            b == self.infinite(),
    {
        self.magnitude_bits() == INFINITE
    }

    pub fn lt(self, other: Double) -> (b: bool)
        ensures
            b == self.lt_spec(other),
    {
        let x: u64 = self.magnitude_bits();
        let y: u64 = other.magnitude_bits();
        if x > INFINITE || y > INFINITE {
            false
        } else if self.is_negative() {
            if other.is_negative() {
                x > y
            } else {
                x != 0 || y != 0
            }
        } else {
            !other.is_negative() && x < y
        }
    }

    pub fn le(self, other: Double) -> (b: bool)
        ensures
            b == self.le_spec(other),
    {
        !self.is_nan() && !other.is_nan() && !other.lt(self)
    }

    pub fn gt(self, other: Double) -> (b: bool)
        ensures
            b == other.lt_spec(self),
    {
        other.lt(self)
    }

    pub fn ge(self, other: Double) -> (b: bool)
        ensures
            b == other.le_spec(self),
    {
        other.le(self)
    }

    /// Numeric equality: zeros of either sign are equal, and nothing equals a
    /// value that is not a number.
    pub fn equals(self, other: Double) -> (b: bool)
        ensures
            b == self.eq_spec(other),
    {
        self.le(other) && other.le(self)
    }

    /// Whether this number comes before the other one in the total order.
    pub fn total_lt(self, other: Double) -> (b: bool)
        ensures
            b == (self.total_place() < other.total_place()),
    {
        let x: u64 = self.magnitude_bits();
        let y: u64 = other.magnitude_bits();
        if self.is_negative() {
            !other.is_negative() || x > y
        } else {
            !other.is_negative() && x < y
        }
    }

    pub fn neg(self) -> (number: Double)
        ensures
            number == self.neg_spec(),
    {
        if self.bits >= SIGN {
            Double { bits: self.bits - SIGN }
        } else {
            Double { bits: self.bits + SIGN }
        }
    }

    pub fn abs(self) -> (number: Double)
        ensures
            number == self.abs_spec(),
    {
        Double { bits: self.magnitude_bits() }
    }

    pub fn add(self, other: Double) -> (number: Double)
        ensures
            number == self.add_spec(other),
    {
        if self.is_nan() || other.is_nan() {
            return Double { bits: NAN };
        }
        if self.is_infinite() {
            if other.is_infinite() && self.is_negative() != other.is_negative() {
                return Double { bits: NAN };
            }
            return self;
        }
        if other.is_infinite() {
            return other;
        }
        let x: u64 = self.magnitude_bits();
        let y: u64 = other.magnitude_bits();
        let minus: bool = self.is_negative() != other.is_negative();
        proof {
            if x < y {
                lemma_units_increase(x as nat, y as nat);
            }
            if y < x {
                lemma_units_increase(y as nat, x as nat);
            }
            if x > 0 {
                lemma_units_increase(0, x as nat);
            }
            if y > 0 {
                lemma_units_increase(0, y as nat);
            }
        }
        if minus && x == y {
            return build(false, 0);
        }
        if x == 0 && y == 0 {
            return build(self.is_negative() && other.is_negative(), 0);
        }
        let (mx, ex) = split(x);
        let (my, ey) = split(y);
        if ex >= ey {
            let (magnitude, below) = combine(mx, ex, my, ey, minus);
            build(self.is_negative() != below, magnitude)
        } else {
            let (magnitude, below) = combine(my, ey, mx, ex, minus);
            build(other.is_negative() != below, magnitude)
        }
    }

    pub fn sub(self, other: Double) -> (number: Double)
        ensures
            number == self.sub_spec(other),
    {
        self.add(other.neg())
    }

    pub fn mul(self, other: Double) -> (number: Double)
        ensures
            number == self.mul_spec(other),
    {
        let negative: bool = self.is_negative() != other.is_negative();
        let x: u64 = self.magnitude_bits();
        let y: u64 = other.magnitude_bits();
        if x > INFINITE || y > INFINITE {
            Double { bits: NAN }
        } else if x == INFINITE || y == INFINITE {
            if x == 0 || y == 0 {
                Double { bits: NAN }
            } else {
                build(negative, INFINITE)
            }
        } else {
            build(negative, product(x, y))
        }
    }

    pub fn div(self, other: Double) -> (number: Double)
        ensures
            number == self.div_spec(other),
    {
        let negative: bool = self.is_negative() != other.is_negative();
        let x: u64 = self.magnitude_bits();
        let y: u64 = other.magnitude_bits();
        if x > INFINITE || y > INFINITE || (x == INFINITE && y == INFINITE) || (x == 0 && y == 0) {
            Double { bits: NAN }
        } else if x == INFINITE || y == 0 {
            build(negative, INFINITE)
        } else if y == INFINITE {
            build(negative, 0)
        } else {
            build(negative, quotient(x, y))
        }
    }

    pub fn max(self, other: Double) -> (number: Double)
        ensures
            number == self.max_spec(other),
    {
        if self.is_nan() || self.lt(other) {
            other
        } else {
            self
        }
    }

    pub fn min(self, other: Double) -> (number: Double)
        ensures
            number == self.min_spec(other),
    {
        if self.is_nan() || other.lt(self) {
            other
        } else {
            self
        }
    }

    pub fn floor(self) -> (number: Double)
        ensures
            number == self.floor_spec(),
    {
        if self.is_nan() {
            return Double { bits: NAN };
        }
        if self.is_infinite() {
            return self;
        }
        match whole_part(self.magnitude_bits()) {
            Some((q, half, more)) => {
                proof {
                    lemma_whole_cell(self, q as nat, half, more);
                }
                let n: u64 = if self.is_negative() && (half || more) {
                    q + 1
                } else {
                    q
                };
                build(self.is_negative(), whole_magnitude(n))
            },
            None => {
                proof {
                    lemma_whole(self);
                }
                self
            },
        }
    }

    pub fn ceil(self) -> (number: Double)
        ensures
            number == self.ceil_spec(),
    {
        if self.is_nan() {
            return Double { bits: NAN };
        }
        if self.is_infinite() {
            return self;
        }
        match whole_part(self.magnitude_bits()) {
            Some((q, half, more)) => {
                proof {
                    lemma_whole_cell(self, q as nat, half, more);
                }
                let n: u64 = if !self.is_negative() && (half || more) {
                    q + 1
                } else {
                    q
                };
                build(self.is_negative(), whole_magnitude(n))
            },
            None => {
                proof {
                    lemma_whole(self);
                }
                self
            },
        }
    }

    pub fn round(self) -> (number: Double)
        ensures
            number == self.round_spec(),
    {
        if self.is_nan() {
            return Double { bits: NAN };
        }
        if self.is_infinite() {
            return self;
        }
        match whole_part(self.magnitude_bits()) {
            Some((q, half, more)) => {
                proof {
                    lemma_whole_cell(self, q as nat, half, more);
                }
                let n: u64 = if half {
                    q + 1
                } else {
                    q
                };
                build(self.is_negative(), whole_magnitude(n))
            },
            None => {
                proof {
                    lemma_whole(self);
                    lemma_whole_round(self);
                }
                self
            },
        }
    }

    /// The whole part as an unsigned number, cut off at `limit`.
    pub fn to_whole(self, limit: u64) -> (n: u64)
        requires
            limit <= BINADE,
        ensures
            n == self.saturated(limit as nat),
    {
        if self.is_nan() || self.is_negative() {
            return 0;
        }
        if self.is_infinite() {
            return limit;
        }
        match whole_part(self.magnitude_bits()) {
            Some((q, half, more)) => {
                proof {
                    lemma_whole_cell(self, q as nat, half, more);
                }
                if q > limit {
                    limit
                } else {
                    q
                }
            },
            None => {
                proof {
                    let one = pow2(ONE_EXPONENT as nat);
                    lemma_pow2_pos(ONE_EXPONENT as nat);
                    vstd::arithmetic::div_mod::lemma_fundamental_div_mod(
                        units(self.magnitude()) as int,
                        one as int,
                    );
                    assert(self.whole() >= BINADE) by (nonlinear_arith)
                        requires
                            units(self.magnitude()) == one * self.whole(),
                            units(self.magnitude()) >= BINADE * one,
                            one > 0,
                    ;
                }
                limit
            },
        }
    }

    /// The whole part as an unsigned number, cut off at `limit`.
    pub fn to_unsigned(self, limit: u32) -> (n: u32)
        ensures
            n == self.saturated(limit as nat),
    {
        self.to_whole(limit as u64) as u32
    }

    /// The place of the number in the order of all of them.
    pub fn total_key(self) -> (k: i128)
        ensures
            k == self.total_place(),
    {
        let magnitude: i128 = self.magnitude_bits() as i128;
        if self.is_negative() {
            -1 - magnitude
        } else {
            magnitude
        }
    }

    /// The number nearest to a whole number.
    pub fn from_int(k: i64) -> (number: Double)
        ensures
            number == of_int(k as int),
    {
        let magnitude: u64 = if k < 0 {
            whole_magnitude((-(k as i128)) as u64)
        } else {
            whole_magnitude(k as u64)
        };
        proof {
            let one = pow2(ONE_EXPONENT as nat);
            lemma_pow2_pos(ONE_EXPONENT as nat);
            if k == 0 {
                lemma_round_exact(0);
                assert(units(0) == 0);
                assert(0 * one == 0);
            }
            assert(k < 0 ==> k * one < 0 && -(k * one) == (-k) * one) by (nonlinear_arith)
                requires
                    one > 0,
            ;
            assert(k > 0 ==> k * one > 0) by (nonlinear_arith)
                requires
                    one > 0,
            ;
        }
        build(k < 0, magnitude)
    }
}

} // verus!
