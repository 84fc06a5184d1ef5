//! How near what is computed is to what it stands for.
//!
//! What is computed is compared with an exact fraction of whole numbers. As long
//! as no number on the way is too large or too small, a computation in several
//! steps is off by little more than one part in `2^53` for each of them.

use crate::num::constants::ZERO;
use crate::num::double::{
    lemma_add_is_near, lemma_div_is_near, lemma_mul_is_near, lemma_order_is_numeric, of_int, size, ONE_EXPONENT,
};
use crate::num::order::{lemma_neg_turns, positive};
use crate::num::rounding::{
    lemma_round_at_least, lemma_round_at_most, lemma_round_exact, lemma_round_is_near, lemma_scaled_is_a_magnitude,
    lemma_units_at, lemma_units_increase, round, units, BINADE, INFINITE,
};
use crate::num::Double;
use vstd::arithmetic::power2::{
    lemma2_to64, lemma2_to64_rest, lemma_pow2_adds, lemma_pow2_pos, lemma_pow2_strictly_increases, lemma_pow2_unfold, pow2,
};
use vstd::prelude::*;

verus! {

/// `2^53`: how many parts of its size a number keeps when it is rounded.
pub open spec fn fine() -> int {
    0x20_0000_0000_0000
}

/// How many units one is worth.
pub open spec fn one() -> int {
    pow2(ONE_EXPONENT as nat) as int
}

/// A number that is not negative, and is zero or lies between `2^-b` and `2^b`.
pub open spec fn sized(x: Double, b: nat) -> bool {
    &&& x.finite()
    &&& !x.negative()
    &&& b <= 900
    &&& x.value() == 0 || pow2((1074 - b) as nat) <= x.value() <= pow2((1074 + b) as nat)
}

/// A number that is `n / d` units up to `k` parts in `2^53`.
pub open spec fn about(x: Double, n: int, d: int, k: int) -> bool {
    &&& 0 <= k <= 0x10_0000
    &&& d > 0
    &&& n >= 0
    &&& fine() * (x.value() * d) <= (fine() + k) * n
    &&& (fine() - k) * n <= fine() * (x.value() * d)
}

/// Two powers of two are in the order of their exponents.
proof fn lemma_pow2_order(a: nat, b: nat)
    requires
        a <= b,
    ensures
        0 < pow2(a) <= pow2(b),
{
    lemma_pow2_pos(a);
    if a < b {
        lemma_pow2_strictly_increases(a, b);
    }
}

/// A bound may be taken wider.
pub proof fn lemma_sized_widens(x: Double, b: nat, c: nat)
    requires
        sized(x, b),
        b <= c <= 900,
    ensures
        sized(x, c),
{
    lemma_pow2_order((1074 - c) as nat, (1074 - b) as nat);
    lemma_pow2_order((1074 + b) as nat, (1074 + c) as nat);
}

/// What is rounded stays between two powers of two, and is off by one part at
/// most.
proof fn lemma_rounded_between(n: nat, d: nat, low: nat, high: nat)
    requires
        d > 0,
        52 <= low <= high <= 2000,
        pow2(low) * d <= n <= pow2(high) * d,
    ensures
        pow2(low) <= units(round(n, d)) <= pow2(high),
        round(n, d) < INFINITE,
        fine() * (units(round(n, d)) * d) <= (fine() + 1) * n,
        (fine() - 1) * n <= fine() * (units(round(n, d)) * d),
{
    let m = lemma_scaled_is_a_magnitude(1, low);
    let h = lemma_scaled_is_a_magnitude(1, high);
    assert(1 * pow2(low) == pow2(low) && 1 * pow2(high) == pow2(high)) by (nonlinear_arith);
    lemma_round_at_least(n, d, m);
    lemma_round_at_most(n, d, h);
    let r = round(n, d);
    if m < r {
        lemma_units_increase(m, r);
    }
    if r < h {
        lemma_units_increase(r, h);
    }
    lemma_pow2_order(52, low);
    lemma2_to64_rest();
    assert(BINADE * d <= n) by (nonlinear_arith)
        requires
            BINADE <= pow2(low),
            pow2(low) * d <= n,
    ;
    lemma_round_is_near(n, d);
    let u = units(r) as int;
    assert(fine() * (u * d) == (u * d - n) * (2 * BINADE) + fine() * n) by (nonlinear_arith)
        requires
            fine() == 2 * BINADE,
    ;
    assert((fine() + 1) * n == fine() * n + n && (fine() - 1) * n == fine() * n - n) by (nonlinear_arith);
    // The magnitude is that of a finite number.
    if r >= INFINITE {
        let e = lemma_scaled_is_a_magnitude(1, 2000);
        lemma_units_at(INFINITE as nat, 2046, BINADE as nat);
        lemma_pow2_order(high, 2046);
        lemma_pow2_adds(52, 2046);
        lemma_pow2_strictly_increases(high, 2098);
        if INFINITE < r {
            lemma_units_increase(INFINITE as nat, r);
        }
        assert(false);
    }
}

/// A number is itself.
pub proof fn lemma_about_itself(x: Double)
    requires
        x.finite(),
        !x.negative(),
    ensures
        about(x, x.value(), 1, 0),
{
}

/// A looser bound.
pub proof fn lemma_about_loosens(x: Double, n: int, d: int, k: int, j: int)
    requires
        about(x, n, d, k),
        k <= j <= 0x10_0000,
    ensures
        about(x, n, d, j),
{
    assert((fine() + k) * n <= (fine() + j) * n && (fine() - j) * n <= (fine() - k) * n) by (nonlinear_arith)
        requires
            k <= j,
            n >= 0,
    ;
}

proof fn lemma_three_factors(x: int, y: int, z: int, n: int, m: int, d: int, e: int, w: int, k: int, j: int)
    requires
        0 <= k <= 0x8_0000,
        0 <= j <= 0x8_0000,
        d > 0,
        e > 0,
        w > 0,
        n >= 0,
        m >= 0,
        x >= 0,
        y >= 0,
        z >= 0,
        fine() * (x * d) <= (fine() + k) * n,
        (fine() - k) * n <= fine() * (x * d),
        fine() * (y * e) <= (fine() + j) * m,
        (fine() - j) * m <= fine() * (y * e),
        fine() * (z * w) <= (fine() + 1) * (x * y),
        (fine() - 1) * (x * y) <= fine() * (z * w),
    ensures
        fine() * (z * (d * e * w)) <= (fine() + (k + j + 2)) * (n * m),
        (fine() - (k + j + 2)) * (n * m) <= fine() * (z * (d * e * w)),
{
    let f = fine();
    let a = f * (x * d);
    let b = f * (y * e);
    let p = n * m;
    let q = (x * d) * (y * e);
    assert(p >= 0 && q >= 0) by (nonlinear_arith)
        requires
            p == n * m,
            q == (x * d) * (y * e),
            n >= 0,
            m >= 0,
            x >= 0,
            y >= 0,
            d > 0,
            e > 0,
    ;
    assert((f + k) * n >= 0 && (f - k) * n >= 0 && (f - j) * m >= 0 && a >= 0 && b >= 0) by (nonlinear_arith)
        requires
            f == fine(),
            fine() == 0x20_0000_0000_0000,
            0 <= k <= 0x8_0000,
            0 <= j <= 0x8_0000,
            n >= 0,
            m >= 0,
            a == f * (x * d),
            b == f * (y * e),
            x >= 0,
            y >= 0,
            d > 0,
            e > 0,
    ;
    let an = (f + k) * n;
    let bm = (f + j) * m;
    let cn = (f - k) * n;
    let dm = (f - j) * m;
    assert(a * b <= an * bm) by (nonlinear_arith)
        requires
            0 <= a <= an,
            0 <= b <= bm,
    ;
    assert(cn * dm <= a * b) by (nonlinear_arith)
        requires
            0 <= cn <= a,
            0 <= dm <= b,
    ;
    assert(a * b == f * f * q) by (nonlinear_arith)
        requires
            a == f * (x * d),
            b == f * (y * e),
            q == (x * d) * (y * e),
    ;
    assert(an * bm == ((f + k) * (f + j)) * p) by (nonlinear_arith)
        requires
            an == (f + k) * n,
            bm == (f + j) * m,
            p == n * m,
    ;
    assert(cn * dm == ((f - k) * (f - j)) * p) by (nonlinear_arith)
        requires
            cn == (f - k) * n,
            dm == (f - j) * m,
            p == n * m,
    ;
    let g = z * (d * e * w);
    assert(f * g <= (f + 1) * q) by (nonlinear_arith)
        requires
            f * (z * w) <= (f + 1) * (x * y),
            g == z * (d * e * w),
            q == (x * d) * (y * e),
            d > 0,
            e > 0,
    ;
    assert((f - 1) * q <= f * g) by (nonlinear_arith)
        requires
            (f - 1) * (x * y) <= f * (z * w),
            g == z * (d * e * w),
            q == (x * d) * (y * e),
            d > 0,
            e > 0,
    ;
    lemma_small_product(f, k, j);
    let s = k + j + 2;
    let t = f * f;
    // f^3 g <= (f+1)(f+k)(f+j) p <= f^2 (f+s) p
    assert(t * (f * g) <= t * ((f + s) * p)) by (nonlinear_arith)
        requires
            f * g <= (f + 1) * q,
            t * q <= ((f + k) * (f + j)) * p,
            (f + 1) * ((f + k) * (f + j)) <= t * (f + s),
            t == f * f,
            f > 0,
            p >= 0,
    ;
    assert(t * ((f - s) * p) <= t * (f * g)) by (nonlinear_arith)
        requires
            (f - 1) * q <= f * g,
            ((f - k) * (f - j)) * p <= t * q,
            t * (f - s) <= (f - 1) * ((f - k) * (f - j)),
            t == f * f,
            f > 1,
            p >= 0,
    ;
    assert(f * g <= (f + s) * p && (f - s) * p <= f * g) by (nonlinear_arith)
        requires
            t * (f * g) <= t * ((f + s) * p),
            t * ((f - s) * p) <= t * (f * g),
            t > 0,
    ;
}

proof fn lemma_small_product(f: int, k: int, j: int)
    requires
        f == fine(),
        0 <= k <= 0x8_0000,
        0 <= j <= 0x8_0000,
    ensures
        f > 1,
        f * f > 0,
        (f + 1) * ((f + k) * (f + j)) <= f * f * (f + (k + j + 2)),
        f * f * (f - (k + j + 2)) <= (f - 1) * ((f - k) * (f - j)),
{
    let kj = k * j;
    assert(0 <= kj <= 0x8_0000 * 0x8_0000) by (nonlinear_arith)
        requires
            kj == k * j,
            0 <= k <= 0x8_0000,
            0 <= j <= 0x8_0000,
    ;
    assert((f + k) * (f + j) == f * f + f * (k + j) + kj) by (nonlinear_arith)
        requires
            kj == k * j,
    ;
    assert((f - k) * (f - j) == f * f - f * (k + j) + kj) by (nonlinear_arith)
        requires
            kj == k * j,
    ;
    let s = k + j;
    let t = f * f;
    assert(t > 0) by (nonlinear_arith)
        requires
            t == f * f,
            f > 1,
    ;
    assert((f + 1) * (t + f * s + kj) == t * f + t * (s + 1) + f * (s + kj) + kj) by (nonlinear_arith)
        requires
            t == f * f,
    ;
    assert((f - 1) * (t - f * s + kj) == t * f - t * (s + 1) + f * (s + kj) - kj) by (nonlinear_arith)
        requires
            t == f * f,
    ;
    assert(f * (s + kj) + kj <= t) by (nonlinear_arith)
        requires
            t == f * f,
            f == 0x20_0000_0000_0000,
            0 <= s <= 0x10_0000,
            0 <= kj <= 0x40_0000_0000,
    ;
    assert(f * (s + kj) - kj >= 0) by (nonlinear_arith)
        requires
            f > 1,
            s >= 0,
            kj >= 0,
    ;
    assert(t * (f + (s + 2)) == t * f + t * (s + 1) + t) by (nonlinear_arith);
    assert(t * (f - (s + 2)) == t * f - t * (s + 1) - t) by (nonlinear_arith);
}

/// The product of two numbers.
pub proof fn lemma_about_product(x: Double, y: Double, n: int, d: int, m: int, e: int, k: int, j: int, b: nat, c: nat)
    requires
        about(x, n, d, k),
        about(y, m, e, j),
        sized(x, b),
        sized(y, c),
        k + j + 2 <= 0x8_0000,
        b + c <= 900,
    ensures
        about(x.mul_spec(y), n * m, d * e * one(), k + j + 2),
        sized(x.mul_spec(y), b + c),
{
    let u = pow2(ONE_EXPONENT as nat);
    lemma_pow2_pos(ONE_EXPONENT as nat);
    let a = units(x.magnitude());
    let v = units(y.magnitude());
    let z = x.mul_spec(y);
    assert(a == x.value() && v == y.value());
    if a == 0 || v == 0 {
        assert(a * v == 0) by (nonlinear_arith)
            requires
                a == 0 || v == 0,
        ;
        assert(0 * u == 0) by (nonlinear_arith);
        assert(units(0) == 0);
        lemma_round_at_most(0, u, 0);
        assert(z.value() == 0);
        lemma_zero_term(n, m, d, e, k, j, a as int, v as int);
    } else {
        let low = (1074 - b - c) as nat;
        let high = (1074 + b + c) as nat;
        lemma_pow2_adds((1074 - b) as nat, (1074 - c) as nat);
        lemma_pow2_adds((1074 + b) as nat, (1074 + c) as nat);
        lemma_pow2_adds(low, 1074);
        lemma_pow2_adds(high, 1074);
        let p = pow2((1074 - b) as nat);
        let q = pow2((1074 - c) as nat);
        let r = pow2((1074 + b) as nat);
        let s = pow2((1074 + c) as nat);
        assert(p * q <= a * v <= r * s) by (nonlinear_arith)
            requires
                0 <= p <= a <= r,
                0 <= q <= v <= s,
        ;
        lemma_rounded_between(a * v, u, low, high);
    }
    lemma_three_factors(x.value(), y.value(), z.value(), n, m, d, e, one(), k, j);
    assert(n * m >= 0 && d * e * one() > 0) by (nonlinear_arith)
        requires
            n >= 0,
            m >= 0,
            d > 0,
            e > 0,
            one() > 0,
    ;
}

proof fn lemma_zero_term(n: int, m: int, d: int, e: int, k: int, j: int, a: int, v: int)
    requires
        a == 0 || v == 0,
    ensures
        fine() * (0 * one()) <= (fine() + 1) * (a * v),
        (fine() - 1) * (a * v) <= fine() * (0 * one()),
{
    assert(a * v == 0) by (nonlinear_arith)
        requires
            a == 0 || v == 0,
    ;
    assert((fine() + 1) * 0 == 0 && (fine() - 1) * 0 == 0) by (nonlinear_arith);
}

/// What divides turned over: `y` is `m / e`, so its inverse is `e / m`.
proof fn lemma_three_factors_divided(x: int, y: int, z: int, n: int, m: int, d: int, e: int, w: int, k: int, j: int)
    requires
        0 <= k <= 0x8_0000,
        0 <= j <= 0x8_0000,
        d > 0,
        e > 0,
        w > 0,
        n >= 0,
        m > 0,
        x >= 0,
        y > 0,
        z >= 0,
        fine() * (x * d) <= (fine() + k) * n,
        (fine() - k) * n <= fine() * (x * d),
        fine() * (y * e) <= (fine() + j) * m,
        (fine() - j) * m <= fine() * (y * e),
        fine() * (z * y) <= (fine() + 1) * (x * w),
        (fine() - 1) * (x * w) <= fine() * (z * y),
    ensures
        fine() * (z * (d * m)) <= (fine() + (k + j + 4)) * (n * e * w),
        (fine() - (k + j + 4)) * (n * e * w) <= fine() * (z * (d * m)),
{
    let f = fine();
    let g = z * (d * m);
    let h = n * e * w;
    // f (z y) d e  against  x w d e
    let zy = z * y;
    let ye = y * e;
    let xd = x * d;
    assert(h >= 0 && g >= 0) by (nonlinear_arith)
        requires
            h == n * e * w,
            g == z * (d * m),
            n >= 0,
            e > 0,
            w > 0,
            z >= 0,
            d > 0,
            m > 0,
    ;
    // (f - j) g <= f z d (y e) <= ... <= (1 + ..) h
    let zd = z * d;
    assert(zd >= 0) by (nonlinear_arith)
        requires
            zd == z * d,
            z >= 0,
            d > 0,
    ;
    assert((f - j) * g <= f * (zd * ye)) by (nonlinear_arith)
        requires
            (f - j) * m <= f * ye,
            g == z * (d * m),
            zd == z * d,
            zd >= 0,
    ;
    assert(f * (zd * ye) <= (f + j) * g) by (nonlinear_arith)
        requires
            f * ye <= (f + j) * m,
            g == z * (d * m),
            zd == z * d,
            zd >= 0,
    ;
    let t = zd * ye;
    let xw = x * w;
    assert(t == zy * (d * e)) by (nonlinear_arith)
        requires
            t == zd * ye,
            zd == z * d,
            ye == y * e,
            zy == z * y,
    ;
    let v = xd * (e * w);
    assert(v == xw * (d * e)) by (nonlinear_arith)
        requires
            v == xd * (e * w),
            xd == x * d,
            xw == x * w,
    ;
    let de = d * e;
    assert(de > 0) by (nonlinear_arith)
        requires
            de == d * e,
            d > 0,
            e > 0,
    ;
    assert(f * t <= (f + 1) * v && (f - 1) * v <= f * t) by (nonlinear_arith)
        requires
            f * zy <= (f + 1) * xw,
            (f - 1) * xw <= f * zy,
            t == zy * de,
            v == xw * de,
            de > 0,
    ;
    let ew = e * w;
    assert(ew > 0) by (nonlinear_arith)
        requires
            ew == e * w,
            e > 0,
            w > 0,
    ;
    assert(h == n * ew) by (nonlinear_arith)
        requires
            h == n * e * w,
            ew == e * w,
    ;
    assert(f * v <= (f + k) * h && (f - k) * h <= f * v) by (nonlinear_arith)
        requires
            f * xd <= (f + k) * n,
            (f - k) * n <= f * xd,
            v == xd * ew,
            h == n * ew,
            ew > 0,
    ;
    lemma_chain(f, g, h, t, v, k, j);
}

proof fn lemma_chain(f: int, g: int, h: int, t: int, v: int, k: int, j: int)
    requires
        f == fine(),
        0 <= k <= 0x8_0000,
        0 <= j <= 0x8_0000,
        g >= 0,
        h >= 0,
        (f - j) * g <= f * t,
        f * t <= (f + j) * g,
        f * t <= (f + 1) * v,
        (f - 1) * v <= f * t,
        f * v <= (f + k) * h,
        (f - k) * h <= f * v,
    ensures
        f * g <= (f + (k + j + 4)) * h,
        (f - (k + j + 4)) * h <= f * g,
{
    let s = k + j + 4;
    // (f - j) f g <= f f t <= (f + 1) f v <= (f + 1)(f + k) h, and that is at most
    // (f - j)(f + s) h.
    let a = (f - j) * g;
    assert(f * a <= ((f + 1) * (f + k)) * h) by (nonlinear_arith)
        requires
            a <= f * t,
            f * t <= (f + 1) * v,
            f * v <= (f + k) * h,
            f > 0,
    ;
    let b = (f + j) * g;
    assert(((f - 1) * (f - k)) * h <= f * b) by (nonlinear_arith)
        requires
            f * t <= b,
            (f - 1) * v <= f * t,
            (f - k) * h <= f * v,
            f > 1,
    ;
    let ks = k * j;
    assert(0 <= ks <= 0x40_0000_0000) by (nonlinear_arith)
        requires
            ks == k * j,
            0 <= k <= 0x8_0000,
            0 <= j <= 0x8_0000,
    ;
    let jj = j * j;
    assert(0 <= jj <= 0x40_0000_0000) by (nonlinear_arith)
        requires
            jj == j * j,
            0 <= j <= 0x8_0000,
    ;
    let ff = f * f;
    assert((f + 1) * (f + k) == ff + f * (k + 1) + k) by (nonlinear_arith)
        requires
            ff == f * f,
    ;
    assert((f - j) * (f + s) == ff + f * (k + 4) - ks - jj - 4 * j) by (nonlinear_arith)
        requires
            ff == f * f,
            s == k + j + 4,
            ks == k * j,
            jj == j * j,
    ;
    assert(f * (k + 4) == f * (k + 1) + 3 * f) by (nonlinear_arith);
    assert((f + 1) * (f + k) <= (f - j) * (f + s));
    assert((f - 1) * (f - k) == ff - f * (k + 1) + k) by (nonlinear_arith)
        requires
            ff == f * f,
    ;
    assert((f + j) * (f - s) == ff - f * (k + 4) - ks - jj - 4 * j) by (nonlinear_arith)
        requires
            ff == f * f,
            s == k + j + 4,
            ks == k * j,
            jj == j * j,
    ;
    assert((f + j) * (f - s) <= (f - 1) * (f - k));
    let c = f - j;
    let e = f + j;
    assert(c * (f * g) <= c * ((f + s) * h)) by (nonlinear_arith)
        requires
            a == c * g,
            f * a <= ((f + 1) * (f + k)) * h,
            (f + 1) * (f + k) <= c * (f + s),
            h >= 0,
    ;
    assert(e * ((f - s) * h) <= e * (f * g)) by (nonlinear_arith)
        requires
            b == e * g,
            ((f - 1) * (f - k)) * h <= f * b,
            e * (f - s) <= (f - 1) * (f - k),
            h >= 0,
    ;
    assert(f * g <= (f + s) * h) by (nonlinear_arith)
        requires
            c * (f * g) <= c * ((f + s) * h),
            c > 0,
    ;
    assert((f - s) * h <= f * g) by (nonlinear_arith)
        requires
            e * ((f - s) * h) <= e * (f * g),
            e > 0,
    ;
}

/// The quotient of two numbers.
pub proof fn lemma_about_quotient(
    x: Double,
    y: Double,
    n: int,
    d: int,
    m: int,
    e: int,
    k: int,
    j: int,
    b: nat,
    c: nat,
)
    requires
        about(x, n, d, k),
        about(y, m, e, j),
        sized(x, b),
        sized(y, c),
        positive(y),
        k + j + 4 <= 0x8_0000,
        b + c <= 900,
    ensures
        m > 0,
        about(x.div_spec(y), n * e * one(), d * m, k + j + 4),
        sized(x.div_spec(y), b + c),
{
    let u = pow2(ONE_EXPONENT as nat);
    lemma_pow2_pos(ONE_EXPONENT as nat);
    let a = units(x.magnitude());
    let v = units(y.magnitude());
    lemma_units_increase(0, y.magnitude());
    let z = x.div_spec(y);
    assert(a == x.value() && v == y.value());
    assert(m > 0) by (nonlinear_arith)
        requires
            fine() * (v * e) <= (fine() + j) * m,
            v > 0,
            e > 0,
            j >= 0,
            fine() == 0x20_0000_0000_0000,
    ;
    if a == 0 {
        assert(a * u == 0) by (nonlinear_arith)
            requires
                a == 0,
        ;
        assert(units(0) == 0);
        assert(0 * v == 0) by (nonlinear_arith);
        lemma_round_at_most(0, v, 0);
        if x.magnitude() > 0 {
            lemma_units_increase(0, x.magnitude());
        }
        assert(z.value() == 0);
        assert(fine() * (0 * v) <= (fine() + 1) * (a * u) && (fine() - 1) * (a * u) <= fine() * (0 * v))
            by (nonlinear_arith)
            requires
                a * u == 0,
        ;
    } else {
        let low = (1074 - b - c) as nat;
        let high = (1074 + b + c) as nat;
        lemma_pow2_adds(low, (1074 + c) as nat);
        lemma_pow2_adds((1074 - b) as nat, 1074);
        lemma_pow2_adds((1074 + b) as nat, 1074);
        lemma_pow2_adds(high, (1074 - c) as nat);
        let p = pow2((1074 - b) as nat);
        let q = pow2((1074 - c) as nat);
        let r = pow2((1074 + b) as nat);
        let s = pow2((1074 + c) as nat);
        let l = pow2(low);
        let h = pow2(high);
        assert(l * v <= a * u) by (nonlinear_arith)
            requires
                v <= s,
                l * s == p * u,
                p <= a,
                l >= 0,
                u >= 0,
        ;
        assert(a * u <= h * v) by (nonlinear_arith)
            requires
                q <= v,
                h * q == r * u,
                a <= r,
                h >= 0,
                u >= 0,
        ;
        lemma_rounded_between(a * u, v, low, high);
    }
    lemma_three_factors_divided(x.value(), y.value(), z.value(), n, m, d, e, one(), k, j);
    assert(n * e * one() >= 0 && d * m > 0) by (nonlinear_arith)
        requires
            n >= 0,
            m > 0,
            d > 0,
            e > 0,
            one() > 0,
    ;
}

/// The sum of two numbers.
pub proof fn lemma_about_sum(x: Double, y: Double, n: int, d: int, m: int, e: int, k: int, j: int, b: nat, c: nat)
    requires
        about(x, n, d, k),
        about(y, m, e, j),
        sized(x, b),
        sized(y, c),
        k + j + 2 <= 0x8_0000,
        b < 900,
        c < 900,
    ensures
        about(x.add_spec(y), n * e + m * d, d * e, k + j + 2),
        sized(x.add_spec(y), if b < c {
            c + 1
        } else {
            b + 1
        }),
{
    let a = units(x.magnitude());
    let v = units(y.magnitude());
    let z = x.add_spec(y);
    let w = if b < c {
        c
    } else {
        b
    };
    assert(a == x.value() && v == y.value());
    lemma_sized_widens(x, b, w);
    lemma_sized_widens(y, c, w);
    let t = a + v;
    lemma_pow2_order((1073 - w) as nat, (1074 - w) as nat);
    lemma_pow2_unfold((1075 + w) as nat);
    if t == 0 {
        assert(units(0) == 0);
        assert(z.value() == 0);
        assert((fine() + 1) * 0 == 0 && (fine() - 1) * 0 == 0) by (nonlinear_arith);
    } else {
        lemma_rounded_between(t, 1, (1073 - w) as nat, (1075 + w) as nat);
        assert(units(round(t, 1)) * 1 == units(round(t, 1))) by (nonlinear_arith);
    }
    let f = fine();
    let g = z.value();
    let s = k + j;
    let xd = a * d;
    let ye = v * e;
    let total = n * e + m * d;
    assert(f * (t * (d * e)) <= (f + s) * total && (f - s) * total <= f * (t * (d * e))) by {
        let ne = n * e;
        let md = m * d;
        assert(ne >= 0 && md >= 0) by (nonlinear_arith)
            requires
                ne == n * e,
                md == m * d,
                n >= 0,
                m >= 0,
                d > 0,
                e > 0,
        ;
        assert(f * (xd * e) <= (f + s) * ne && (f - s) * ne <= f * (xd * e)) by (nonlinear_arith)
            requires
                f * xd <= (f + k) * n,
                (f - k) * n <= f * xd,
                ne == n * e,
                e > 0,
                n >= 0,
                k <= s,
        ;
        assert(f * (ye * d) <= (f + s) * md && (f - s) * md <= f * (ye * d)) by (nonlinear_arith)
            requires
                f * ye <= (f + j) * m,
                (f - j) * m <= f * ye,
                md == m * d,
                d > 0,
                m >= 0,
                j <= s,
        ;
        assert(t * (d * e) == xd * e + ye * d) by (nonlinear_arith)
            requires
                t == a + v,
                xd == a * d,
                ye == v * e,
        ;
        assert((f + s) * total == (f + s) * ne + (f + s) * md && (f - s) * total == (f - s) * ne + (f - s) * md)
            by (nonlinear_arith)
            requires
                total == ne + md,
        ;
        assert(f * (xd * e + ye * d) == f * (xd * e) + f * (ye * d)) by (nonlinear_arith);
    }
    let de = d * e;
    assert(de > 0 && total >= 0) by (nonlinear_arith)
        requires
            de == d * e,
            d > 0,
            e > 0,
            total == n * e + m * d,
            n >= 0,
            m >= 0,
    ;
    let q = t * de;
    assert(f * (g * de) <= (f + 1) * q && (f - 1) * q <= f * (g * de)) by (nonlinear_arith)
        requires
            f * g <= (f + 1) * t,
            (f - 1) * t <= f * g,
            q == t * de,
            de > 0,
    ;
    let r = s + 2;
    assert(f * (f * (g * de)) <= f * ((f + r) * total)) by (nonlinear_arith)
        requires
            f * (g * de) <= (f + 1) * q,
            f * q <= (f + s) * total,
            (f + 1) * (f + s) <= f * (f + r),
            f > 0,
            total >= 0,
    {
        assert(f * ((f + 1) * q) == (f + 1) * (f * q));
    }
    assert(f * ((f - r) * total) <= f * (f * (g * de))) by (nonlinear_arith)
        requires
            (f - 1) * q <= f * (g * de),
            (f - s) * total <= f * q,
            f * (f - r) <= (f - 1) * (f - s),
            f > 1,
            total >= 0,
    {
        assert(f * ((f - 1) * q) == (f - 1) * (f * q));
    }
    assert(f * (g * de) <= (f + r) * total && (f - r) * total <= f * (g * de)) by (nonlinear_arith)
        requires
            f * (f * (g * de)) <= f * ((f + r) * total),
            f * ((f - r) * total) <= f * (f * (g * de)),
            f > 0,
    ;
}

/// A sum is off by at most one part of what it is.
pub proof fn lemma_sum_is_near(a: Double, b: Double)
    requires
        a.finite(),
        b.finite(),
        a.add_spec(b).finite(),
    ensures
        fine() * size(a.add_spec(b).value() - (a.value() + b.value())) <= size(a.value() + b.value()),
{
    lemma_add_is_near(a, b);
    let x = size(a.add_spec(b).value() - (a.value() + b.value()));
    assert(x * (2 * BINADE) == fine() * x) by (nonlinear_arith)
        requires
            fine() == 2 * BINADE,
    ;
}

/// A difference is off by at most one part of what it is.
pub proof fn lemma_difference_is_near(a: Double, b: Double)
    requires
        a.finite(),
        b.finite(),
        a.sub_spec(b).finite(),
    ensures
        fine() * size(a.sub_spec(b).value() - (a.value() - b.value())) <= size(a.value() - b.value()),
{
    lemma_sum_is_near(a, b.neg_spec());
    assert(b.neg_spec().value() == -b.value());
}

/// A product is off by at most one part of what it is, or by one unit.
pub proof fn lemma_product_is_near(a: Double, b: Double)
    requires
        a.finite(),
        b.finite(),
        a.mul_spec(b).finite(),
    ensures
        fine() * size(a.mul_spec(b).value() * one() - a.value() * b.value()) <= size(a.value() * b.value()) + fine()
            * one(),
{
    lemma_mul_is_near(a, b);
    let x = size(a.mul_spec(b).value() * one() - a.value() * b.value());
    assert(x * (2 * BINADE) == fine() * x) by (nonlinear_arith)
        requires
            fine() == 2 * BINADE,
    ;
    assert(2 * BINADE * one() == fine() * one()) by (nonlinear_arith)
        requires
            fine() == 2 * BINADE,
    ;
}

/// A quotient by a positive number is off by at most one part of what it is, or by
/// one unit.
pub proof fn lemma_quotient_is_near(a: Double, b: Double)
    requires
        a.finite(),
        b.finite(),
        positive(b),
        a.div_spec(b).finite(),
    ensures
        fine() * size(a.div_spec(b).value() * b.value() - a.value() * one()) <= size(a.value()) * one() + fine()
            * b.value(),
{
    lemma_div_is_near(a, b);
    let x = size(a.div_spec(b).value() * b.value() - a.value() * one());
    assert(x * (2 * BINADE) == fine() * x) by (nonlinear_arith)
        requires
            fine() == 2 * BINADE,
    ;
    assert(2 * BINADE * b.value() == fine() * b.value()) by (nonlinear_arith)
        requires
            fine() == 2 * BINADE,
    ;
}

/// One is worth more units than a number keeps parts.
pub proof fn lemma_one_is_fine()
    ensures
        one() >= fine() * fine(),
        one() > 0,
{
    lemma_pow2_adds(53, 53);
    lemma2_to64_rest();
    lemma_pow2_order(106, ONE_EXPONENT as nat);
}

/// The sum of two numbers that are fractions over the same.
pub proof fn lemma_about_same_sum(x: Double, y: Double, n: int, m: int, d: int, k: int, j: int, b: nat)
    requires
        about(x, n, d, k),
        about(y, m, d, j),
        sized(x, b),
        sized(y, b),
        k + j + 2 <= 0x8_0000,
        b < 900,
    ensures
        about(x.add_spec(y), n + m, d, k + j + 2),
        sized(x.add_spec(y), b + 1),
{
    lemma_about_sum(x, y, n, d, m, d, k, j, b, b);
    let z = x.add_spec(y).value();
    let f = fine();
    let s = k + j + 2;
    assert(n * d + m * d == (n + m) * d) by (nonlinear_arith);
    let t = n + m;
    assert(f * (z * d) <= (f + s) * t && (f - s) * t <= f * (z * d)) by (nonlinear_arith)
        requires
            f * (z * (d * d)) <= (f + s) * (t * d),
            (f - s) * (t * d) <= f * (z * (d * d)),
            d > 0,
    ;
}

/// The difference of two numbers over a third one, which is positive.
pub proof fn lemma_gap_over(a: Double, b: Double, c: Double)
    requires
        a.finite(),
        b.finite(),
        c.finite(),
        positive(c),
        a.sub_spec(b).div_spec(c).finite(),
    ensures
        ({
            let z = a.sub_spec(b).div_spec(c).value();
            let gap = a.value() - b.value();
            fine() * size(z * c.value() - gap * one()) <= 3 * (size(gap) * one()) + fine() * c.value()
        }),
{
    let g = a.sub_spec(b);
    assert(!g.nan());
    assert(g.finite());
    lemma_difference_is_near(a, b);
    lemma_quotient_is_near(g, c);
    let u = one();
    lemma_one_is_fine();
    let gap = a.value() - b.value();
    let z = g.div_spec(c).value();
    let off = g.value() - gap;
    assert(size(g.value()) <= 2 * size(gap));
    assert(size(g.value()) * u <= 2 * (size(gap) * u)) by (nonlinear_arith)
        requires
            size(g.value()) <= 2 * size(gap),
            u > 0,
    ;
    let gu = g.value() * u;
    let pu = gap * u;
    assert(fine() * size(gu - pu) <= size(gap) * u) by (nonlinear_arith)
        requires
            fine() * size(off) <= size(gap),
            off == g.value() - gap,
            gu == g.value() * u,
            pu == gap * u,
            u > 0,
            size(off) == (if off < 0 {
                -off
            } else {
                off
            }),
            size(gu - pu) == (if gu - pu < 0 {
                -(gu - pu)
            } else {
                gu - pu
            }),
    ;
    let zc = z * c.value();
    assert(size(zc - pu) <= size(zc - gu) + size(gu - pu));
}

/// The difference of two quotients by positive numbers.
pub proof fn lemma_rates_apart(s: Double, i: Double, l: Double, j: Double)
    requires
        s.finite(),
        i.finite(),
        l.finite(),
        j.finite(),
        positive(i),
        positive(j),
        s.div_spec(i).sub_spec(l.div_spec(j)).finite(),
    ensures
        ({
            let z = s.div_spec(i).sub_spec(l.div_spec(j)).value();
            let x = i.value();
            let y = j.value();
            fine() * size(z * (x * y) - (s.value() * y - l.value() * x) * one()) <= 3 * ((size(s.value()) * y + size(
                l.value(),
            ) * x) * one()) + 3 * (fine() * (x * y))
        }),
{
    let a = s.div_spec(i);
    let b = l.div_spec(j);
    let zz = a.sub_spec(b);
    lemma_neg_turns(b);
    assert(!a.nan() && !b.nan());
    assert(a.finite() && b.finite());
    lemma_one_is_fine();
    lemma_order_is_numeric(Double { bits: ZERO }, i);
    lemma_order_is_numeric(Double { bits: ZERO }, j);
    assert(units(0) == 0);
    lemma_quotient_is_near(s, i);
    lemma_quotient_is_near(l, j);
    lemma_difference_is_near(a, b);
    let f = fine();
    let u = one();
    let x = i.value();
    let y = j.value();
    let z = zz.value();
    let su = s.value() * u;
    let lu = l.value() * u;
    let ax = a.value() * x;
    let by = b.value() * y;
    let ssize = size(s.value()) * u;
    let lsize = size(l.value()) * u;
    assert(ssize == size(su) && lsize == size(lu)) by (nonlinear_arith)
        requires
            su == s.value() * u,
            lu == l.value() * u,
            ssize == size(s.value()) * u,
            lsize == size(l.value()) * u,
            u > 0,
            size(s.value()) == (if s.value() < 0 {
                -s.value()
            } else {
                s.value()
            }),
            size(l.value()) == (if l.value() < 0 {
                -l.value()
            } else {
                l.value()
            }),
            size(su) == (if su < 0 {
                -su
            } else {
                su
            }),
            size(lu) == (if lu < 0 {
                -lu
            } else {
                lu
            }),
    ;
    // f |ax - su| <= ssize + f x
    let xy = x * y;
    assert(xy > 0) by (nonlinear_arith)
        requires
            xy == x * y,
            x > 0,
            y > 0,
    ;
    let p = a.value() * xy;
    let q = b.value() * xy;
    let sy = s.value() * y * u;
    let lx = l.value() * x * u;
    let ssy = ssize * y;
    let lsx = lsize * x;
    lemma_scaled_gap(a.value(), x, su, y, ssize);
    lemma_scaled_gap(b.value(), y, lu, x, lsize);
    assert((a.value() * x - su) * y == p - sy) by (nonlinear_arith)
        requires
            p == a.value() * (x * y),
            su == s.value() * u,
            sy == s.value() * y * u,
    ;
    assert((b.value() * y - lu) * x == q - lx) by (nonlinear_arith)
        requires
            q == b.value() * (x * y),
            lu == l.value() * u,
            lx == l.value() * x * u,
    ;
    assert(size(p) <= 2 * ssy + xy && size(q) <= 2 * lsx + xy) by {
        assert(size(sy) == ssy) by (nonlinear_arith)
            requires
                ssy == ssize * y,
                ssize == size(su),
                sy == s.value() * y * u,
                su == s.value() * u,
                y > 0,
                size(su) == (if su < 0 {
                    -su
                } else {
                    su
                }),
                size(sy) == (if sy < 0 {
                    -sy
                } else {
                    sy
                }),
        ;
        assert(size(lx) == lsx) by (nonlinear_arith)
            requires
                lsx == lsize * x,
                lsize == size(lu),
                lx == l.value() * x * u,
                lu == l.value() * u,
                x > 0,
                size(lu) == (if lu < 0 {
                    -lu
                } else {
                    lu
                }),
                size(lx) == (if lx < 0 {
                    -lx
                } else {
                    lx
                }),
        ;
        assert(x * y == y * x) by (nonlinear_arith);
        assert(f * size(p - sy) <= ssy + f * xy);
        assert(f * size(q - lx) <= lsx + f * xy);
    }
    assert(x * y == y * x) by (nonlinear_arith);
    let t = a.value() - b.value();
    let off = z - t;
    let zx = z * xy;
    assert(p - q == t * xy) by (nonlinear_arith)
        requires
            p == a.value() * xy,
            q == b.value() * xy,
            t == a.value() - b.value(),
    ;
    assert(f * size(zx - (p - q)) <= size(p - q)) by (nonlinear_arith)
        requires
            f * size(off) <= size(t),
            off == z - t,
            zx == z * xy,
            p - q == t * xy,
            xy > 0,
            size(off) == (if off < 0 {
                -off
            } else {
                off
            }),
            size(t) == (if t < 0 {
                -t
            } else {
                t
            }),
            size(p - q) == (if p - q < 0 {
                -(p - q)
            } else {
                p - q
            }),
            size(zx - (p - q)) == (if zx - (p - q) < 0 {
                -(zx - (p - q))
            } else {
                zx - (p - q)
            }),
    ;
    assert(size(zx - (sy - lx)) <= size(zx - (p - q)) + size(p - sy) + size(q - lx));
    assert((s.value() * y - l.value() * x) * u == sy - lx) by (nonlinear_arith)
        requires
            sy == s.value() * y * u,
            lx == l.value() * x * u,
    ;
    assert((size(s.value()) * y + size(l.value()) * x) * u == ssy + lsx) by (nonlinear_arith)
        requires
            ssy == ssize * y,
            lsx == lsize * x,
            ssize == size(s.value()) * u,
            lsize == size(l.value()) * u,
    ;
    assert(2 * xy <= f * xy) by (nonlinear_arith)
        requires
            xy > 0,
            f == 0x20_0000_0000_0000,
    ;
}

proof fn lemma_scaled_gap(a: int, x: int, su: int, y: int, ssize: int)
    requires
        y > 0,
        fine() * size(a * x - su) <= ssize + fine() * x,
    ensures
        fine() * size((a * x - su) * y) <= ssize * y + fine() * (x * y),
{
    let g = a * x - su;
    let h = g * y;
    assert(size(h) == size(g) * y) by (nonlinear_arith)
        requires
            h == g * y,
            y > 0,
            size(g) == (if g < 0 {
                -g
            } else {
                g
            }),
            size(h) == (if h < 0 {
                -h
            } else {
                h
            }),
    ;
    assert(fine() * (size(g) * y) <= ssize * y + fine() * (x * y)) by (nonlinear_arith)
        requires
            fine() * size(g) <= ssize + fine() * x,
            y > 0,
    ;
}

/// The difference of two numbers times a third one.
pub proof fn lemma_gap_times(a: Double, b: Double, c: Double)
    requires
        a.finite(),
        b.finite(),
        c.finite(),
        a.sub_spec(b).finite(),
        a.sub_spec(b).mul_spec(c).finite(),
    ensures
        ({
            let z = a.sub_spec(b).mul_spec(c).value();
            let exact = (a.value() - b.value()) * c.value();
            fine() * size(z * one() - exact) <= 3 * size(exact) + fine() * one()
        }),
{
    let g = a.sub_spec(b);
    lemma_difference_is_near(a, b);
    lemma_product_is_near(g, c);
    let gap = a.value() - b.value();
    let off = g.value() - gap;
    let exact = gap * c.value();
    let gc = g.value() * c.value();
    let k = size(c.value());
    assert(size(exact) == size(gap) * k && size(gc) == size(g.value()) * k && size(gc - exact) == size(off) * k) by {
        lemma_sizes_multiply(gap, c.value());
        lemma_sizes_multiply(g.value(), c.value());
        lemma_sizes_multiply(off, c.value());
        assert(off * c.value() == gc - exact) by (nonlinear_arith)
            requires
                off == g.value() - gap,
                gc == g.value() * c.value(),
                exact == gap * c.value(),
        ;
    }
    assert(size(g.value()) <= 2 * size(gap));
    assert(fine() * size(gc - exact) <= size(exact) && size(gc) <= 2 * size(exact)) by (nonlinear_arith)
        requires
            fine() * size(off) <= size(gap),
            size(g.value()) <= 2 * size(gap),
            size(exact) == size(gap) * k,
            size(gc) == size(g.value()) * k,
            size(gc - exact) == size(off) * k,
            k >= 0,
    ;
    let zu = g.mul_spec(c).value() * one();
    assert(size(zu - exact) <= size(zu - gc) + size(gc - exact));
}

/// The size of a product is the product of the sizes.
pub proof fn lemma_sizes_multiply(a: int, b: int)
    ensures
        size(a * b) == size(a) * size(b),
{
    let p = a * b;
    assert(size(p) == size(a) * size(b)) by (nonlinear_arith)
        requires
            p == a * b,
            size(a) == (if a < 0 {
                -a
            } else {
                a
            }),
            size(b) == (if b < 0 {
                -b
            } else {
                b
            }),
            size(p) == (if p < 0 {
                -p
            } else {
                p
            }),
    ;
}

/// A whole number is itself.
pub proof fn lemma_whole_number(n: int)
    requires
        1 <= n <= 0x1_0000_0000,
    ensures
        of_int(n).finite(),
        positive(of_int(n)),
        of_int(n).value() == n * one(),
        sized(of_int(n), 32),
        about(of_int(n), n * one(), 1, 0),
{
    let u = pow2(ONE_EXPONENT as nat);
    lemma_pow2_pos(ONE_EXPONENT as nat);
    let m = lemma_scaled_is_a_magnitude(n as nat, ONE_EXPONENT as nat);
    lemma_round_exact(m);
    lemma_pow2_adds(32, 1074);
    lemma2_to64();
    assert(pow2(32) == 0x1_0000_0000);
    lemma_pow2_order(1042, 1074);
    assert(n * u <= 0x1_0000_0000 * u && n * u >= u) by (nonlinear_arith)
        requires
            1 <= n <= 0x1_0000_0000,
            u > 0,
    ;
    assert(0x1_0000_0000 * u == pow2(1106));
    let h = lemma_scaled_is_a_magnitude(1, 1106);
    assert(1 * pow2(1106) == pow2(1106)) by (nonlinear_arith);
    lemma_rounded_between(pow2(1106), 1, 1106, 1106);
    lemma_round_exact(h);
    if h < m {
        lemma_units_increase(h, m);
    }
    if m == 0 {
        assert(units(0) == 0);
    }
}

} // verus!
