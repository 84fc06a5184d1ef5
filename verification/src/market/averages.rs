//! What holds of weighted averages: how near the computed average is to the
//! exact one, and what it does not depend on.

use crate::market::projection::{
    age_hours, average_of, averageable, latest, weight_exponent, weight_sum, weighted_mean, weighted_sum,
};
use crate::num::constants::{EPSILON, MILLIS_PER_HOUR, ONE, ZERO};
use crate::num::double::{
    lemma_add_is_near, lemma_div_is_near, lemma_mul_is_near, lemma_order_is_numeric, of_int, signed,
    size, ONE_EXPONENT,
};
use crate::num::rounding::{
    lemma_round_at_most, lemma_round_exact, lemma_round_monotone, lemma_units_at, lemma_units_increase, round, units,
    BINADE, INFINITE,
};
use crate::num::Double;
use vstd::arithmetic::power2::{lemma2_to64_rest, lemma_pow2_adds, lemma_pow2_pos, pow2};
use vstd::multiset::Multiset;
use vstd::prelude::*;
use vstd::seq_lib::lemma_fold_left_permutation;

verus! {

/// How many units one is worth.
pub open spec fn one() -> int {
    pow2(ONE_EXPONENT as nat) as int
}

/// How many parts of its size a number keeps when it is rounded: an amount times
/// `2^53`.
#[verifier::inline]
pub open spec fn parts(amount: int) -> int {
    0x20_0000_0000_0000 * amount
}

/// The values of points, each with its weight.
pub open spec fn weighed(points: Seq<(i64, Double)>, weights: Seq<Double>) -> Seq<(Double, Double)> {
    Seq::new(points.len(), |i: int| (points[i].1, weights[i]))
}

/// The exact sum of values times their weights, in units of units.
pub open spec fn exact_sum(p: Seq<(Double, Double)>) -> int
    decreases p.len(),
{
    if p.len() == 0 {
        0
    } else {
        exact_sum(p.drop_last()) + p.last().0.value() * p.last().1.value()
    }
}

/// The exact sum of the weights, in units.
pub open spec fn exact_weight(p: Seq<(Double, Double)>) -> int
    decreases p.len(),
{
    if p.len() == 0 {
        0
    } else {
        exact_weight(p.drop_last()) + p.last().1.value()
    }
}

/// The exact sum of the sizes of values times their weights, in units of units,
/// with a little for each that may be lost below the smallest number.
pub open spec fn exact_size(p: Seq<(Double, Double)>) -> int
    decreases p.len(),
{
    if p.len() == 0 {
        0
    } else {
        exact_size(p.drop_last()) + size(p.last().0.value() * p.last().1.value()) + parts(one())
    }
}

/// The largest size of a value, in units: `2^800`.
pub open spec fn widest() -> int {
    pow2(800) * one()
}

/// Whether values can be averaged without leaving the range of numbers: none is
/// larger than `2^800`, no weight is negative or above one, and there are not
/// more than a machine holds.
pub open spec fn tame(p: Seq<(Double, Double)>) -> bool {
    &&& p.len() <= 0x4000_0000_0000
    &&& forall|i: int| 0 <= i < p.len() ==> tame_pair(#[trigger] p[i])
}

pub open spec fn tame_pair(x: (Double, Double)) -> bool {
    &&& x.0.finite()
    &&& size(x.0.value()) <= widest()
    &&& x.1.finite()
    &&& !x.1.negative()
    &&& x.1.value() <= one()
}

/// The computed sum of values times their weights.
pub open spec fn rounded_sum(p: Seq<(Double, Double)>) -> Double
    decreases p.len(),
{
    if p.len() == 0 {
        Double { bits: ZERO }
    } else {
        rounded_sum(p.drop_last()).add_spec(p.last().0.mul_spec(p.last().1))
    }
}

/// The computed sum of weights.
pub open spec fn rounded_weight(p: Seq<(Double, Double)>) -> Double
    decreases p.len(),
{
    if p.len() == 0 {
        Double { bits: ZERO }
    } else {
        rounded_weight(p.drop_last()).add_spec(p.last().1)
    }
}

proof fn lemma_sums_of_points(points: Seq<(i64, Double)>, weights: Seq<Double>)
    requires
        weights.len() == points.len(),
    ensures
        weighted_sum(points, weights) == rounded_sum(weighed(points, weights)),
        weight_sum(weights) == rounded_weight(weighed(points, weights)),
    decreases points.len(),
{
    if points.len() > 0 {
        lemma_sums_of_points(points.drop_last(), weights.drop_last());
        assert(weighed(points, weights).drop_last() =~= weighed(points.drop_last(), weights.drop_last()));
    }
}

/// What is at most `2^1000` is a finite number once it is rounded.
proof fn lemma_stays_finite(n: nat, d: nat)
    requires
        d > 0,
        n <= pow2(1000) * one() * d,
    ensures
        round(n, d) < INFINITE,
{
    let m = (2023 * BINADE) as nat;
    lemma_units_at(m, 2022, BINADE as nat);
    lemma2_to64_rest();
    lemma_pow2_adds(52, 2022);
    lemma_pow2_adds(1000, ONE_EXPONENT as nat);
    assert(units(m) == pow2(1000) * one());
    lemma_round_at_most(n, d, m);
}

proof fn lemma_one_is_large()
    ensures
        one() >= parts(1),
        one() > 0,
        widest() >= one(),
        0x1_0000_0000_0000_0000 * (0x1_0000_0000_0000_0000 * widest()) <= pow2(1000) * one(),
{
    lemma2_to64_rest();
    vstd::arithmetic::power2::lemma_pow2_strictly_increases(53, ONE_EXPONENT as nat);
    assert(pow2(53) == parts(1));
    lemma_pow2_pos(ONE_EXPONENT as nat);
    lemma_pow2_adds(64, 64);
    vstd::arithmetic::power2::lemma2_to64();
    assert(pow2(64) == 0x1_0000_0000_0000_0000);
    vstd::arithmetic::power2::lemma_pow2_strictly_increases(128, 200);
    lemma_pow2_adds(200, 800);
    lemma_pow2_pos(800);
    let z = pow2(800) as int;
    let u = one();
    assert(z * u >= u) by (nonlinear_arith)
        requires
            z >= 1,
            u > 0,
    ;
    assert(0x1_0000_0000_0000_0000 * (0x1_0000_0000_0000_0000 * (z * u)) <= pow2(200) * z * u) by (nonlinear_arith)
        requires
            pow2(200) >= 0x1_0000_0000_0000_0000 * 0x1_0000_0000_0000_0000,
            z >= 1,
            u > 0,
    ;
}

/// What is near in the terms of rounding.
proof fn lemma_in_parts(x: int)
    ensures
        x * (2 * BINADE) == parts(x),
        2 * BINADE * x == parts(x),
{
    assert(x * (2 * BINADE) == parts(x)) by (nonlinear_arith);
    assert(2 * BINADE * x == parts(x)) by (nonlinear_arith);
}

/// One more term: how far a computed sum is from the exact one.
proof fn lemma_sum_step(n: int, s: int, x: int, total: int, t: int, p: int, a: int, next: int)
    requires
        0 <= n < 0x4000_0000_0000,
        parts(size(s - x)) <= 4 * n * total,
        size(x) <= total,
        parts(size(t - p)) <= a,
        size(p) <= a,
        parts(size(next - (s + t))) <= size(s + t),
    ensures
        size(s + t) <= 2 * (total + a),
        parts(size(next - (x + p))) <= 4 * (n + 1) * (total + a),
        size(x + p) <= total + a,
{
    assert(4 * n * total <= parts(total)) by (nonlinear_arith)
        requires
            0 <= n < 0x4000_0000_0000,
            0 <= total,
    ;
    assert(size(s - x) <= total);
    assert(size(s) <= 2 * total);
    assert(size(t) <= 2 * a);
    assert(4 * (n + 1) * (total + a) == 4 * n * total + 4 * total + 4 * (n + 1) * a) by (nonlinear_arith);
    assert(4 * (n + 1) * a >= 4 * a) by (nonlinear_arith)
        requires
            n >= 0,
            a >= 0,
    ;
    assert(size(next - (x + p)) <= size(next - (s + t)) + size(s - x) + size(t - p));
}

/// One more weight: how far a computed sum of weights is from the exact one.
proof fn lemma_weight_step(n: int, s: int, x: int, w: int, next: int)
    requires
        0 <= n < 0x4000_0000_0000,
        parts(size(s - x)) <= 2 * n * x,
        0 <= x,
        0 <= w,
        parts(size(next - (s + w))) <= size(s + w),
    ensures
        size(s + w) <= 2 * (x + w),
        parts(size(next - (x + w))) <= 2 * (n + 1) * (x + w),
        next >= 0,
{
    assert(4 * n * x <= parts(x)) by (nonlinear_arith)
        requires
            0 <= n < 0x4000_0000_0000,
            0 <= x,
    ;
    assert(4 * n * x == 2 * (2 * n * x)) by (nonlinear_arith);
    assert(2 * size(s - x) <= x);
    assert(0 <= s <= 2 * x);
    assert(2 * (n + 1) * (x + w) == 2 * n * x + 2 * x + 2 * (n + 1) * w) by (nonlinear_arith);
    assert(2 * (n + 1) * w >= 2 * w) by (nonlinear_arith)
        requires
            n >= 0,
            w >= 0,
    ;
    assert(size(next - (x + w)) <= size(next - (s + w)) + size(s - x));
}

/// How far the computed sums are from the exact ones.
proof fn lemma_sums_are_near(p: Seq<(Double, Double)>)
    requires
        tame(p),
    ensures
        rounded_sum(p).finite(),
        parts(size(rounded_sum(p).value() * one() - exact_sum(p))) <= 4 * p.len() * exact_size(p),
        size(exact_sum(p)) <= exact_size(p),
        rounded_weight(p).finite(),
        rounded_weight(p).value() >= 0,
        parts(size(rounded_weight(p).value() - exact_weight(p))) <= 2 * p.len() * exact_weight(p),
        0 <= exact_weight(p) <= p.len() * one(),
        p.len() * parts(one()) <= exact_size(p) <= p.len() * (2 * (widest() * one())),
    decreases p.len(),
{
    lemma_one_is_large();
    let u = one();
    let z = widest();
    if p.len() == 0 {
        assert(units(0) == 0);
        assert(rounded_sum(p).value() * u == 0) by (nonlinear_arith)
            requires
                rounded_sum(p).value() == 0,
        ;
    } else {
        let before = p.drop_last();
        let n = before.len() as int;
        let last = p.last();
        assert(tame_pair(p[p.len() - 1]));
        assert(tame(before)) by {
            assert forall|i: int| 0 <= i < before.len() implies tame_pair(#[trigger] before[i]) by {
                assert(tame_pair(p[i]));
            }
        }
        lemma_sums_are_near(before);
        let v = last.0;
        let w = last.1;
        let s = rounded_sum(before);
        let t = v.mul_spec(w);
        let product = v.value() * w.value();
        let a = size(product) + parts(u);
        let total = exact_size(before);
        assert(size(product) <= z * u) by (nonlinear_arith)
            requires
                product == v.value() * w.value(),
                0 <= w.value() <= u,
                u > 0,
                size(product) == product || size(product) == -product,
                -z <= v.value() <= z,
        ;
        assert(parts(u) <= z * u) by (nonlinear_arith)
            requires
                parts(1) <= u,
                u <= z,
        ;
        assert(a <= 2 * (z * u));
        // The product is finite.
        let x = units(v.magnitude());
        let y = units(w.magnitude());
        assert(x * y <= pow2(1000) * u * u) by (nonlinear_arith)
            requires
                x <= pow2(1000) * u,
                y <= u,
                x >= 0,
                y >= 0,
                u > 0,
        ;
        lemma_stays_finite(x * y, u as nat);
        lemma_mul_is_near(v, w);
        let tu = t.value() * u;
        let su = s.value() * u;
        lemma_in_parts(size(tu - product));
        lemma_in_parts(u);
        assert(parts(size(tu - product)) <= a);
        // The sum is finite.
        let k = s.value() + t.value();
        let sum = s.add_spec(t);
        assert(k * u == su + tu) by (nonlinear_arith)
            requires
                k == s.value() + t.value(),
                su == s.value() * u,
                tu == t.value() * u,
        ;
        assert(4 * n * total <= parts(total)) by (nonlinear_arith)
            requires
                0 <= n < 0x4000_0000_0000,
                0 <= total,
        ;
        assert(size(su) <= 2 * total);
        assert(size(tu) <= 2 * a);
        assert(size(k) * u == size(k * u)) by (nonlinear_arith)
            requires
                u > 0,
                size(k) == (if k < 0 {
                    -k
                } else {
                    k
                }),
                size(k * u) == (if k * u < 0 {
                    -(k * u)
                } else {
                    k * u
                }),
        ;
        assert(total + a <= (n + 1) * (2 * (z * u))) by (nonlinear_arith)
            requires
                total <= n * (2 * (z * u)),
                a <= 2 * (z * u),
        ;
        assert(size(k) <= 4 * (n + 1) * z) by (nonlinear_arith)
            requires
                size(k) * u <= 2 * (total + a),
                total + a <= (n + 1) * (2 * (z * u)),
                u > 0,
        ;
        assert(4 * (n + 1) * z <= 0x1_0000_0000_0000_0000 * z) by (nonlinear_arith)
            requires
                0 <= n < 0x4000_0000_0000,
                z >= 0,
        ;
        if k != 0 {
            lemma_stays_finite(size(k) as nat, 1);
        }
        assert(sum.finite());
        lemma_add_is_near(s, t);
        lemma_in_parts(size(sum.value() - k));
        let next = sum.value() * u;
        assert(parts(size(next - (su + tu))) <= size(su + tu)) by (nonlinear_arith)
            requires
                parts(size(sum.value() - k)) <= size(k),
                next == sum.value() * u,
                su + tu == k * u,
                u > 0,
                size(k) == (if k < 0 {
                    -k
                } else {
                    k
                }),
                size(sum.value() - k) == (if sum.value() - k < 0 {
                    -(sum.value() - k)
                } else {
                    sum.value() - k
                }),
                size(su + tu) == (if su + tu < 0 {
                    -(su + tu)
                } else {
                    su + tu
                }),
                size(next - (su + tu)) == (if next - (su + tu) < 0 {
                    -(next - (su + tu))
                } else {
                    next - (su + tu)
                }),
        ;
        lemma_sum_step(n, su, exact_sum(before), total, tu, product, a, next);
        // The weights.
        let ws = rounded_weight(before);
        let wx = exact_weight(before);
        let wk = ws.value() + w.value();
        assert(2 * n * wx <= parts(wx)) by (nonlinear_arith)
            requires
                0 <= n < 0x4000_0000_0000,
                0 <= wx,
        ;
        assert(ws.value() <= 2 * wx);
        assert(wx + w.value() <= (n + 1) * u) by (nonlinear_arith)
            requires
                wx <= n * u,
                w.value() <= u,
        ;
        assert(2 * ((n + 1) * u) <= 0x1_0000_0000_0000_0000 * u) by (nonlinear_arith)
            requires
                0 <= n < 0x4000_0000_0000,
                u > 0,
        ;
        if wk != 0 {
            lemma_stays_finite(wk as nat, 1);
        }
        assert(ws.add_spec(w).finite());
        lemma_add_is_near(ws, w);
        lemma_in_parts(size(ws.add_spec(w).value() - wk));
        lemma_weight_step(n, ws.value(), wx, w.value(), ws.add_spec(w).value());
        assert(p.len() * parts(u) <= exact_size(p)) by (nonlinear_arith)
            requires
                n * parts(u) <= total,
                exact_size(p) == total + a,
                parts(u) <= a,
                p.len() == n + 1,
        ;
    }
}

/// The last step: how far a computed average is from the exact one.
proof fn lemma_mean_step(n: int, u: int, s: int, x: int, total: int, w: int, exact: int, a: int)
    requires
        1 <= n <= 0x4000_0000_0000,
        u >= parts(1),
        w > 0,
        0 <= exact <= n * u,
        n * parts(u) <= total,
        parts(size(s - x)) <= 4 * n * total,
        size(x) <= total,
        parts(size(w - exact)) <= 2 * n * exact,
        parts(size(a * w - s)) <= size(s) + parts(w),
    ensures
        parts(size(a * exact - x)) <= 20 * n * total,
{
    assert(4 * n * total <= parts(total) && n * total >= total) by (nonlinear_arith)
        requires
            1 <= n <= 0x4000_0000_0000,
            0 <= total,
    ;
    assert(4 * n * exact <= parts(exact)) by (nonlinear_arith)
        requires
            1 <= n <= 0x4000_0000_0000,
            0 <= exact,
    ;
    assert(4 * n * exact == 2 * (2 * n * exact)) by (nonlinear_arith);
    assert(2 * size(w - exact) <= exact);
    assert(w <= 2 * exact);
    assert(exact <= 2 * w);
    assert(size(s) <= 2 * total);
    assert(parts(exact) <= total) by (nonlinear_arith)
        requires
            exact <= n * u,
            n * parts(u) <= total,
    ;
    assert(parts(w) <= 2 * total);
    let q = size(a);
    let gap = size(w - exact);
    // The size of the average, times the weight.
    assert(q * w == size(a * w)) by (nonlinear_arith)
        requires
            w > 0,
            q == (if a < 0 {
                -a
            } else {
                a
            }),
            size(a * w) == (if a * w < 0 {
                -(a * w)
            } else {
                a * w
            }),
    ;
    assert(size(a * w - s) <= total);
    assert(q * w <= 3 * total);
    assert(q * exact <= 6 * total) by (nonlinear_arith)
        requires
            q * w <= 3 * total,
            exact <= 2 * w,
            q >= 0,
    ;
    assert(parts(q * gap) <= 2 * n * (q * exact)) by (nonlinear_arith)
        requires
            parts(gap) <= 2 * n * exact,
            q >= 0,
    ;
    assert(2 * n * (q * exact) <= 12 * n * total) by (nonlinear_arith)
        requires
            q * exact <= 6 * total,
            n >= 1,
    ;
    let shift = a * (exact - w);
    assert(size(shift) == q * gap) by (nonlinear_arith)
        requires
            shift == a * (exact - w),
            q == (if a < 0 {
                -a
            } else {
                a
            }),
            gap == (if w - exact < 0 {
                -(w - exact)
            } else {
                w - exact
            }),
            size(shift) == (if shift < 0 {
                -shift
            } else {
                shift
            }),
    ;
    assert(a * exact - x == (a * w - s) + (s - x) + shift) by (nonlinear_arith)
        requires
            shift == a * (exact - w),
    ;
    assert(size(a * exact - x) <= size(a * w - s) + size(s - x) + size(shift));
    assert(4 * n * total == 4 * (n * total) && 12 * n * total == 12 * (n * total) && 20 * n * total == 20 * (n
        * total)) by (nonlinear_arith);
}

/// The computed average of tame values is near the exact one: off by at most
/// twenty parts in `2^53` for each value, of what the values weigh without
/// their signs.
pub proof fn lemma_mean_is_near(points: Seq<(i64, Double)>, weights: Seq<Double>)
    requires
        weights.len() == points.len(),
        tame(weighed(points, weights)),
        weighted_mean(points, weights) is Some,
    ensures
        ({
            let p = weighed(points, weights);
            let mean = weighted_mean(points, weights)->0;
            &&& mean.finite()
            &&& exact_weight(p) > 0
            &&& parts(size(mean.value() * exact_weight(p) - exact_sum(p))) <= 20 * p.len() * exact_size(p)
        }),
{
    let p = weighed(points, weights);
    let u = one();
    lemma_one_is_large();
    lemma_sums_of_points(points, weights);
    lemma_sums_are_near(p);
    let s = rounded_sum(p);
    let w = rounded_weight(p);
    let epsilon = Double { bits: EPSILON };
    if p.len() == 0 {
        assert(!epsilon.lt_spec(w));
    }
    lemma_order_is_numeric(epsilon, w);
    lemma_units_at(EPSILON as nat, 970, BINADE as nat);
    lemma2_to64_rest();
    lemma_pow2_adds(52, 970);
    lemma_pow2_adds(52, 1022);
    lemma_pow2_pos(1022);
    let least = pow2(1022) as int;
    assert(epsilon.value() == least);
    assert(u == 0x10_0000_0000_0000 * least);
    assert(w.value() > least);
    assert(w.magnitude() > 0) by {
        if w.magnitude() == 0 {
            assert(units(0) == 0);
        }
    }
    assert(!w.negative()) by {
        if w.negative() {
            lemma_units_increase(0, w.magnitude());
        }
    }
    let n = p.len() as int;
    let total = exact_size(p);
    let su = s.value() * u;
    assert(4 * n * total <= parts(total)) by (nonlinear_arith)
        requires
            0 <= n <= 0x4000_0000_0000,
            0 <= total,
    ;
    assert(size(su) <= 2 * total);
    let x = units(s.magnitude());
    assert(x * u == size(su)) by (nonlinear_arith)
        requires
            u > 0,
            x >= 0,
            su == s.value() * u,
            s.value() == x || s.value() == -(x as int),
            size(su) == (if su < 0 {
                -su
            } else {
                su
            }),
    ;
    let d = units(w.magnitude());
    let z = widest();
    assert(x <= 4 * n * z) by (nonlinear_arith)
        requires
            x * u <= 2 * (n * (2 * (z * u))),
            u > 0,
    ;
    assert(4 * n * z <= 0x1_0000_0000_0000_0000 * z) by (nonlinear_arith)
        requires
            0 <= n <= 0x4000_0000_0000,
            z >= 0,
    ;
    let top = pow2(1000) * u;
    assert(x * u <= top * d) by (nonlinear_arith)
        requires
            0x1_0000_0000_0000_0000 * x <= top,
            u == 0x10_0000_0000_0000 * least,
            d > least,
            least > 0,
            x >= 0,
    ;
    lemma_stays_finite((x * u) as nat, d);
    let mean = s.div_spec(w);
    assert(mean.finite());
    lemma_div_is_near(s, w);
    lemma_in_parts(size(mean.value() * w.value() - su));
    lemma_in_parts(w.value());
    assert(size(s.value()) * u == size(su)) by {
        assert(size(s.value()) == x);
    }
    assert(exact_weight(p) > 0);
    lemma_mean_step(n, u, su, exact_sum(p), total, w.value(), exact_weight(p), mean.value());
}

/// The exact average lies between bounds of the values.
proof fn lemma_exact_between(p: Seq<(Double, Double)>, least: int, greatest: int)
    requires
        tame(p),
        forall|i: int| 0 <= i < p.len() ==> least <= (#[trigger] p[i]).0.value() <= greatest,
    ensures
        least * exact_weight(p) <= exact_sum(p) <= greatest * exact_weight(p),
    decreases p.len(),
{
    if p.len() > 0 {
        let before = p.drop_last();
        assert(tame(before)) by {
            assert forall|i: int| 0 <= i < before.len() implies tame_pair(#[trigger] before[i]) by {
                assert(tame_pair(p[i]));
            }
        }
        assert forall|i: int| 0 <= i < before.len() implies least <= (#[trigger] before[i]).0.value() <= greatest by {
            assert(least <= p[i].0.value() <= greatest);
        }
        lemma_exact_between(before, least, greatest);
        let v = p.last().0.value();
        let w = p.last().1.value();
        assert(tame_pair(p[p.len() - 1]));
        assert(least <= p[p.len() - 1].0.value() <= greatest);
        let x = exact_weight(before);
        assert(least * (x + w) == least * x + least * w) by (nonlinear_arith);
        assert(greatest * (x + w) == greatest * x + greatest * w) by (nonlinear_arith);
        assert(least * w <= v * w <= greatest * w) by (nonlinear_arith)
            requires
                least <= v <= greatest,
                w >= 0,
        ;
    } else {
        assert(least * 0 == 0 && greatest * 0 == 0) by (nonlinear_arith);
    }
}

/// The average of tame values lies between the least and the greatest of them,
/// up to rounding.
pub proof fn lemma_mean_is_between(
    points: Seq<(i64, Double)>,
    weights: Seq<Double>,
    least: Double,
    greatest: Double,
)
    requires
        weights.len() == points.len(),
        tame(weighed(points, weights)),
        weighted_mean(points, weights) is Some,
        least.finite(),
        greatest.finite(),
        forall|i: int|
            0 <= i < points.len() ==> least.le_spec((#[trigger] points[i]).1) && points[i].1.le_spec(greatest),
    ensures
        ({
            let p = weighed(points, weights);
            let mean = weighted_mean(points, weights)->0;
            let slack = 20 * p.len() * exact_size(p);
            &&& exact_weight(p) > 0
            &&& parts((least.value() - mean.value()) * exact_weight(p)) <= slack
            &&& parts((mean.value() - greatest.value()) * exact_weight(p)) <= slack
        }),
{
    let p = weighed(points, weights);
    let mean = weighted_mean(points, weights)->0;
    lemma_mean_is_near(points, weights);
    let lo = least.value();
    let hi = greatest.value();
    assert forall|i: int| 0 <= i < p.len() implies lo <= (#[trigger] p[i]).0.value() <= hi by {
        assert(tame_pair(p[i]));
        assert(least.le_spec(points[i].1));
        lemma_order_is_numeric(least, points[i].1);
        lemma_order_is_numeric(points[i].1, greatest);
    }
    lemma_exact_between(p, lo, hi);
    let a = mean.value();
    let x = exact_weight(p);
    assert((lo - a) * x == lo * x - a * x) by (nonlinear_arith);
    assert((a - hi) * x == a * x - hi * x) by (nonlinear_arith);
}

proof fn lemma_sums_are_folds(p: Seq<(Double, Double)>)
    ensures
        exact_sum(p) == p.fold_left(0int, |r: int, x: (Double, Double)| r + x.0.value() * x.1.value()),
        exact_weight(p) == p.fold_left(0int, |r: int, x: (Double, Double)| r + x.1.value()),
        exact_size(p) == p.fold_left(
            0int,
            |r: int, x: (Double, Double)| r + size(x.0.value() * x.1.value()) + parts(one()),
        ),
    decreases p.len(),
{
    reveal_with_fuel(Seq::fold_left, 2);
    if p.len() > 0 {
        lemma_sums_are_folds(p.drop_last());
    }
}

/// The exact average, and so the computed one up to rounding, does not depend on
/// the order of the points.
pub proof fn lemma_mean_ignores_order(
    points: Seq<(i64, Double)>,
    weights: Seq<Double>,
    others: Seq<(i64, Double)>,
    other_weights: Seq<Double>,
)
    requires
        weights.len() == points.len(),
        other_weights.len() == others.len(),
        weighed(points, weights).to_multiset() == weighed(others, other_weights).to_multiset(),
        tame(weighed(points, weights)),
        weighted_mean(points, weights) is Some,
        weighted_mean(others, other_weights) is Some,
    ensures
        ({
            let p = weighed(points, weights);
            let q = weighed(others, other_weights);
            let mean = weighted_mean(points, weights)->0;
            let other = weighted_mean(others, other_weights)->0;
            &&& exact_sum(p) == exact_sum(q)
            &&& exact_weight(p) == exact_weight(q)
            &&& exact_weight(p) > 0
            &&& parts(size(mean.value() - other.value()) * exact_weight(p)) <= 40 * p.len() * exact_size(p)
        }),
{
    let p = weighed(points, weights);
    let q = weighed(others, other_weights);
    p.to_multiset_ensures();
    q.to_multiset_ensures();
    assert(p.len() == q.len());
    assert forall|i: int| 0 <= i < q.len() implies tame_pair(#[trigger] q[i]) by {
        assert(q.contains(q[i]));
        assert(q.to_multiset().count(q[i]) > 0);
        assert(p.contains(q[i]));
        let k = choose|k: int| 0 <= k < p.len() && p[k] == q[i];
        assert(tame_pair(p[k]));
    }
    lemma_sums_are_folds(p);
    lemma_sums_are_folds(q);
    lemma_fold_left_permutation(p, q, |r: int, x: (Double, Double)| r + x.0.value() * x.1.value(), 0int);
    lemma_fold_left_permutation(p, q, |r: int, x: (Double, Double)| r + x.1.value(), 0int);
    lemma_fold_left_permutation(
        p,
        q,
        |r: int, x: (Double, Double)| r + size(x.0.value() * x.1.value()) + parts(one()),
        0int,
    );
    lemma_mean_is_near(points, weights);
    lemma_mean_is_near(others, other_weights);
    let a = (weighted_mean(points, weights)->0).value();
    let b = (weighted_mean(others, other_weights)->0).value();
    let w = exact_weight(p);
    let x = exact_sum(p);
    assert(size(a - b) * w == size(a * w - b * w)) by (nonlinear_arith)
        requires
            w > 0,
            size(a - b) == (if a - b < 0 {
                -(a - b)
            } else {
                a - b
            }),
            size(a * w - b * w) == (if a * w - b * w < 0 {
                -(a * w - b * w)
            } else {
                a * w - b * w
            }),
    ;
    assert(size(a * w - b * w) <= size(a * w - x) + size(b * w - x));
    let slack = 20 * p.len() * exact_size(p);
    assert(40 * p.len() * exact_size(p) == 2 * slack) by (nonlinear_arith)
        requires
            slack == 20 * p.len() * exact_size(p),
    ;
}

/// Points that are moved in time.
pub open spec fn moved(points: Seq<(i64, Double)>, by: int) -> Seq<(i64, Double)> {
    Seq::new(points.len(), |i: int| ((points[i].0 + by) as i64, points[i].1))
}

/// The latest of some times is none before any of them, and one of them.
pub proof fn lemma_latest(points: Seq<(i64, Double)>)
    ensures
        forall|i: int| 0 <= i < points.len() ==> (#[trigger] points[i]).0 <= latest(points),
        points.len() > 0 ==> exists|i: int| 0 <= i < points.len() && (#[trigger] points[i]).0 == latest(points),
    decreases points.len(),
{
    if points.len() > 0 {
        let before = points.drop_last();
        lemma_latest(before);
        let n = points.len() - 1;
        assert forall|i: int| 0 <= i < points.len() implies (#[trigger] points[i]).0 <= latest(points) by {
            if i < n {
                assert(before[i] == points[i]);
            }
        }
        if points[n].0 > latest(before) || before.len() == 0 {
            assert(points[n].0 == latest(points));
        } else {
            let i = choose|i: int| 0 <= i < before.len() && (#[trigger] before[i]).0 == latest(before);
            assert(points[i].0 == latest(points));
        }
    }
}

/// The average depends on when points are only relative to each other: moved in
/// time together, they weigh the same and average to the same.
pub proof fn lemma_mean_ignores_shifts(points: Seq<(i64, Double)>, weights: Seq<Double>, half_life: Double, by: int)
    requires
        weights.len() == points.len(),
        forall|i: int| 0 <= i < points.len() ==> i64::MIN <= (#[trigger] points[i]).0 + by <= i64::MAX,
    ensures
        averageable(moved(points, by), half_life) == averageable(points, half_life),
        forall|i: int|
            0 <= i < points.len() ==> weight_exponent(
                latest(moved(points, by)),
                (#[trigger] moved(points, by)[i]).0,
                half_life,
            ) == weight_exponent(latest(points), points[i].0, half_life),
        weighted_mean(moved(points, by), weights) == weighted_mean(points, weights),
{
    let later = moved(points, by);
    lemma_latest(points);
    lemma_latest(later);
    if points.len() > 0 {
        let i = choose|i: int| 0 <= i < points.len() && (#[trigger] points[i]).0 == latest(points);
        let j = choose|j: int| 0 <= j < later.len() && (#[trigger] later[j]).0 == latest(later);
        assert(later[i].0 == points[i].0 + by);
        assert(later[j].0 == points[j].0 + by);
        assert(latest(later) == latest(points) + by);
    }
    assert forall|k: int| 0 <= k < points.len() implies weight_exponent(
        latest(later),
        (#[trigger] later[k]).0,
        half_life,
    ) == weight_exponent(latest(points), points[k].0, half_life) by {
        assert(later[k].0 == points[k].0 + by);
        assert(age_hours(latest(later), later[k].0) == age_hours(latest(points), points[k].0));
    }
    lemma_sums_of_points(points, weights);
    lemma_sums_of_points(later, weights);
    assert(weighed(later, weights) =~= weighed(points, weights));
}

/// How much a point weighs does not depend on the order of the points: it is
/// measured from the latest one, which is the same in any order.
pub proof fn lemma_weights_ignore_order(points: Seq<(i64, Double)>, others: Seq<(i64, Double)>)
    requires
        points.to_multiset() == others.to_multiset(),
    ensures
        latest(points) == latest(others),
{
    points.to_multiset_ensures();
    others.to_multiset_ensures();
    lemma_latest(points);
    lemma_latest(others);
    assert(points.len() == others.len());
    if points.len() > 0 {
        let i = choose|i: int| 0 <= i < points.len() && (#[trigger] points[i]).0 == latest(points);
        let j = choose|j: int| 0 <= j < others.len() && (#[trigger] others[j]).0 == latest(others);
        assert(points.contains(points[i]) && others.contains(others[j]));
        assert(points.to_multiset().count(points[i]) > 0 && others.to_multiset().count(others[j]) > 0);
        assert(others.contains(points[i]) && points.contains(others[j]));
        let k = choose|k: int| 0 <= k < others.len() && others[k] == points[i];
        let l = choose|l: int| 0 <= l < points.len() && points[l] == others[j];
        assert(others[k].0 <= latest(others));
        assert(points[l].0 <= latest(points));
    }
}

/// A sum of two numbers that are not negative is as large as either of them.
proof fn lemma_sum_grows(a: Double, b: Double)
    requires
        !a.nan(),
        !a.negative(),
        b.finite(),
        !b.negative(),
    ensures
        !a.add_spec(b).nan(),
        !a.add_spec(b).negative(),
        a.le_spec(a.add_spec(b)),
        b.le_spec(a.add_spec(b)),
{
    if a.finite() {
        let x = units(a.magnitude());
        let y = units(b.magnitude());
        lemma_round_exact(a.magnitude());
        lemma_round_exact(b.magnitude());
        lemma_round_monotone(x, x + y, 1);
        lemma_round_monotone(y, x + y, 1);
        if a.magnitude() > 0 {
            lemma_units_increase(0, a.magnitude());
        }
        if b.magnitude() > 0 {
            lemma_units_increase(0, b.magnitude());
        }
    }
}

/// Whether a weight is one that a point can have: from zero to one.
pub open spec fn fair(weight: Double) -> bool {
    weight.finite() && !weight.negative() && weight.le_spec(Double { bits: ONE })
}

/// Fair weights, one of which is one, come to one at least.
proof fn lemma_weights_come_to_one(weights: Seq<Double>, k: int)
    requires
        forall|i: int| 0 <= i < weights.len() ==> fair(#[trigger] weights[i]),
        0 <= k < weights.len() ==> weights[k] == (Double { bits: ONE }),
    ensures
        !weight_sum(weights).nan(),
        !weight_sum(weights).negative(),
        0 <= k < weights.len() ==> (Double { bits: ONE }).le_spec(weight_sum(weights)),
    decreases weights.len(),
{
    if weights.len() > 0 {
        let before = weights.drop_last();
        let n = weights.len() - 1;
        assert forall|i: int| 0 <= i < before.len() implies fair(#[trigger] before[i]) by {
            assert(before[i] == weights[i]);
        }
        lemma_weights_come_to_one(before, k);
        assert(fair(weights[n]));
        lemma_sum_grows(weight_sum(before), weights[n]);
    }
}

/// Where points weigh from zero to one and the latest one weighs one, they have
/// an average exactly if there are some and the half-life is a positive number.
pub proof fn lemma_average_is_given(points: Seq<(i64, Double)>, half_life: Double, weights: Seq<Double>)
    requires
        weights.len() == points.len(),
        forall|i: int| 0 <= i < weights.len() ==> fair(#[trigger] weights[i]),
        forall|i: int|
            0 <= i < points.len() && (#[trigger] points[i]).0 == latest(points) ==> weights[i] == (Double {
                bits: ONE,
            }),
    ensures
        average_of(points, half_life, weights) is None <==> points.len() == 0 || !half_life.finite()
            || half_life.le_spec(Double { bits: ZERO }),
{
    if averageable(points, half_life) {
        lemma_latest(points);
        let k = choose|k: int| 0 <= k < points.len() && (#[trigger] points[k]).0 == latest(points);
        lemma_weights_come_to_one(weights, k);
    }
}

/// Whether a function raises two to powers as far as an average goes: two to the
/// power of nothing is one, and to one that is not positive it lies between zero
/// and one.
pub open spec fn halves(power: spec_fn(Double) -> Double) -> bool {
    &&& power(signed(true, 0)) == (Double { bits: ONE })
    &&& forall|x: Double| x.le_spec(Double { bits: ZERO }) ==> fair(#[trigger] power(x))
}

/// What points weigh: two to the powers that the half-life gives them.
pub open spec fn weights_by(points: Seq<(i64, Double)>, half_life: Double, power: spec_fn(Double) -> Double) -> Seq<
    Double,
> {
    Seq::new(points.len(), |i: int| power(weight_exponent(latest(points), points[i].0, half_life)))
}

/// The average of points that weigh as much as the half-life says.
pub open spec fn aged_average(
    points: Seq<(i64, Double)>,
    half_life: Double,
    power: spec_fn(Double) -> Double,
) -> Option<Double> {
    average_of(points, half_life, weights_by(points, half_life, power))
}

/// Whether the values of points can be averaged without leaving the range of
/// numbers.
pub open spec fn within_range(points: Seq<(i64, Double)>) -> bool {
    &&& points.len() <= 0x4000_0000_0000
    &&& forall|i: int|
        0 <= i < points.len() ==> (#[trigger] points[i]).1.finite() && size(points[i].1.value()) <= widest()
}

/// No power is positive, and that of the latest point is nothing.
proof fn lemma_exponents_fall(latest_at: i64, at: i64, half_life: Double)
    requires
        half_life.finite(),
        (Double { bits: ZERO }).lt_spec(half_life),
    ensures
        weight_exponent(latest_at, at, half_life).le_spec(Double { bits: ZERO }),
        at == latest_at ==> weight_exponent(latest_at, at, half_life) == signed(true, 0),
{
    let hours = age_hours(latest_at, at);
    let scale = Double { bits: MILLIS_PER_HOUR };
    lemma_units_increase(0, scale.magnitude());
    lemma_units_increase(0, half_life.magnitude());
    lemma_pow2_pos(ONE_EXPONENT as nat);
    let millis = if latest_at - at < 0 {
        0
    } else if latest_at - at > i64::MAX {
        i64::MAX as int
    } else {
        latest_at - at
    };
    assert(millis * pow2(ONE_EXPONENT as nat) >= 0) by (nonlinear_arith)
        requires
            millis >= 0,
    ;
    assert(!of_int(millis).nan() && !of_int(millis).negative());
    assert(!hours.nan() && !hours.negative());
    if at == latest_at {
        assert(units(0) == 0);
        assert(0 * pow2(ONE_EXPONENT as nat) == 0) by (nonlinear_arith);
        lemma_round_at_most(0, units(scale.magnitude()), 0);
        assert(hours == signed(false, 0));
        lemma_round_at_most(0, units(half_life.magnitude()), 0);
    }
}

/// What points weigh is fair, and the latest one weighs one.
proof fn lemma_weights_are_fair(points: Seq<(i64, Double)>, half_life: Double, power: spec_fn(Double) -> Double)
    requires
        halves(power),
        half_life.finite(),
        (Double { bits: ZERO }).lt_spec(half_life),
    ensures
        ({
            let weights = weights_by(points, half_life, power);
            &&& forall|i: int| 0 <= i < points.len() ==> fair(#[trigger] weights[i])
            &&& forall|i: int|
                0 <= i < points.len() && (#[trigger] points[i]).0 == latest(points) ==> weights[i] == (Double {
                    bits: ONE,
                })
        }),
{
    let weights = weights_by(points, half_life, power);
    assert forall|i: int| 0 <= i < points.len() implies fair(#[trigger] weights[i]) by {
        lemma_exponents_fall(latest(points), points[i].0, half_life);
        assert(fair(power(weight_exponent(latest(points), points[i].0, half_life))));
    }
    assert forall|i: int|
        0 <= i < points.len() && (#[trigger] points[i]).0 == latest(points) implies weights[i] == (Double {
        bits: ONE,
    }) by {
        lemma_exponents_fall(latest(points), points[i].0, half_life);
    }
}

/// Points have an average exactly if there are some and the half-life is a
/// positive number.
pub proof fn lemma_aged_average_is_given(
    points: Seq<(i64, Double)>,
    half_life: Double,
    power: spec_fn(Double) -> Double,
)
    requires
        halves(power),
    ensures
        aged_average(points, half_life, power) is None <==> points.len() == 0 || !half_life.finite()
            || half_life.le_spec(Double { bits: ZERO }),
{
    if averageable(points, half_life) {
        lemma_weights_are_fair(points, half_life, power);
        lemma_average_is_given(points, half_life, weights_by(points, half_life, power));
    }
}

proof fn lemma_weighed_is_tame(points: Seq<(i64, Double)>, half_life: Double, power: spec_fn(Double) -> Double)
    requires
        halves(power),
        averageable(points, half_life),
        within_range(points),
    ensures
        tame(weighed(points, weights_by(points, half_life, power))),
{
    let weights = weights_by(points, half_life, power);
    let p = weighed(points, weights);
    lemma_weights_are_fair(points, half_life, power);
    lemma_one_is_worth();
    assert forall|i: int| 0 <= i < p.len() implies tame_pair(#[trigger] p[i]) by {
        assert(points[i].1.finite());
        assert(fair(weights[i]));
        lemma_order_is_numeric(weights[i], Double { bits: ONE });
    }
}

proof fn lemma_one_is_worth()
    ensures
        (Double { bits: ONE }).finite(),
        (Double { bits: ONE }).value() == one(),
{
    lemma_units_at(ONE as nat, 1022, BINADE as nat);
    lemma2_to64_rest();
    lemma_pow2_adds(52, 1022);
}

/// The average of points lies between the least and the greatest of their
/// values, up to rounding.
pub proof fn lemma_aged_average_is_between(
    points: Seq<(i64, Double)>,
    half_life: Double,
    power: spec_fn(Double) -> Double,
    least: Double,
    greatest: Double,
)
    requires
        halves(power),
        averageable(points, half_life),
        within_range(points),
        least.finite(),
        greatest.finite(),
        forall|i: int|
            0 <= i < points.len() ==> least.le_spec((#[trigger] points[i]).1) && points[i].1.le_spec(greatest),
    ensures
        ({
            let p = weighed(points, weights_by(points, half_life, power));
            let slack = 20 * p.len() * exact_size(p);
            &&& aged_average(points, half_life, power) matches Some(mean)
            &&& exact_weight(p) > 0
            &&& parts((least.value() - mean.value()) * exact_weight(p)) <= slack
            &&& parts((mean.value() - greatest.value()) * exact_weight(p)) <= slack
        }),
{
    lemma_aged_average_is_given(points, half_life, power);
    lemma_weighed_is_tame(points, half_life, power);
    lemma_mean_is_between(points, weights_by(points, half_life, power), least, greatest);
}

/// What is made of each of some items does not depend on their order.
proof fn lemma_map_ignores_order<A, B>(a: Seq<A>, b: Seq<A>, make: spec_fn(A) -> B)
    requires
        a.to_multiset() == b.to_multiset(),
    ensures
        a.map_values(make).to_multiset() == b.map_values(make).to_multiset(),
{
    let put = |bag: Multiset<B>, x: A| bag.insert(make(x));
    assert forall|x: A, y: A, bag: Multiset<B>| #[trigger] put(put(bag, x), y) == put(put(bag, y), x) by {
        assert(bag.insert(make(x)).insert(make(y)) =~= bag.insert(make(y)).insert(make(x)));
    }
    lemma_map_is_fold(a, make);
    lemma_map_is_fold(b, make);
    lemma_fold_left_permutation(a, b, put, Multiset::empty());
}

proof fn lemma_map_is_fold<A, B>(a: Seq<A>, make: spec_fn(A) -> B)
    ensures
        a.map_values(make).to_multiset() == a.fold_left(
            Multiset::empty(),
            |bag: Multiset<B>, x: A| bag.insert(make(x)),
        ),
    decreases a.len(),
{
    reveal_with_fuel(Seq::fold_left, 2);
    if a.len() > 0 {
        lemma_map_is_fold(a.drop_last(), make);
        assert(a.map_values(make) =~= a.drop_last().map_values(make).push(make(a.last())));
        vstd::seq_lib::to_multiset_build(a.drop_last().map_values(make), make(a.last()));
    } else {
        a.map_values(make).to_multiset_ensures();
        assert(a.map_values(make).to_multiset().len() == 0);
        assert(a.map_values(make).to_multiset() =~= Multiset::empty());
    }
}

/// The average of points does not depend on their order: there is one for either
/// order or for neither, and up to rounding it is the same.
pub proof fn lemma_aged_average_ignores_order(
    points: Seq<(i64, Double)>,
    others: Seq<(i64, Double)>,
    half_life: Double,
    power: spec_fn(Double) -> Double,
)
    requires
        halves(power),
        within_range(points),
        points.to_multiset() == others.to_multiset(),
    ensures
        aged_average(points, half_life, power) is Some == aged_average(others, half_life, power) is Some,
        aged_average(points, half_life, power) is Some ==> {
            let p = weighed(points, weights_by(points, half_life, power));
            let mean = aged_average(points, half_life, power)->0;
            let other = aged_average(others, half_life, power)->0;
            &&& exact_weight(p) > 0
            &&& parts(size(mean.value() - other.value()) * exact_weight(p)) <= 40 * p.len() * exact_size(p)
        },
{
    points.to_multiset_ensures();
    others.to_multiset_ensures();
    assert(points.len() == others.len());
    lemma_aged_average_is_given(points, half_life, power);
    lemma_aged_average_is_given(others, half_life, power);
    if averageable(points, half_life) {
        lemma_weights_ignore_order(points, others);
        let at = latest(points);
        let make = |x: (i64, Double)| (x.1, power(weight_exponent(at, x.0, half_life)));
        let first = weights_by(points, half_life, power);
        let second = weights_by(others, half_life, power);
        assert(weighed(points, first) =~= points.map_values(make));
        assert(weighed(others, second) =~= others.map_values(make));
        lemma_map_ignores_order(points, others, make);
        lemma_weighed_is_tame(points, half_life, power);
        lemma_mean_ignores_order(points, first, others, second);
    }
}

/// The average of points is the same when all of them are moved in time together.
pub proof fn lemma_aged_average_ignores_shifts(
    points: Seq<(i64, Double)>,
    half_life: Double,
    power: spec_fn(Double) -> Double,
    by: int,
)
    requires
        forall|i: int| 0 <= i < points.len() ==> i64::MIN <= (#[trigger] points[i]).0 + by <= i64::MAX,
    ensures
        aged_average(moved(points, by), half_life, power) == aged_average(points, half_life, power),
{
    let weights = weights_by(points, half_life, power);
    lemma_mean_ignores_shifts(points, weights, half_life, by);
    let later = moved(points, by);
    assert(weights_by(later, half_life, power) =~= weights) by {
        assert forall|i: int| 0 <= i < points.len() implies #[trigger] weights_by(later, half_life, power)[i]
            == weights[i] by {
            assert(weight_exponent(latest(later), later[i].0, half_life) == weight_exponent(
                latest(points),
                points[i].0,
                half_life,
            ));
        }
    }
}

} // verus!
