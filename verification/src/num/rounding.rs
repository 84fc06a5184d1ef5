//! Rounding of exact rationals to binary64 magnitudes.
//!
//! A magnitude is the bit pattern of a binary64 number without its sign. The
//! smallest positive number, `2^-1074`, is the unit: every finite magnitude is
//! a whole number of units.

use vstd::arithmetic::div_mod::lemma_fundamental_div_mod;
use vstd::arithmetic::div_mod::lemma_fundamental_div_mod_converse;
use vstd::arithmetic::power2::{lemma_pow2, lemma_pow2_pos, lemma_pow2_unfold, pow2};
use vstd::prelude::*;

verus! {

/// `2^52`: the number of magnitudes in one binade.
pub const BINADE: u64 = 0x10_0000_0000_0000;

/// The magnitude of infinity.
pub const INFINITE: u64 = 0x7ff0_0000_0000_0000;

/// How many units the finite magnitude `m` is worth.
pub open spec fn units(m: nat) -> nat
    decreases m,
{
    if m < 2 * BINADE {
        m
    } else {
        2 * units((m - BINADE) as nat)
    }
}

/// `n / d` as a whole number: the nearest one, and the even one of two that
/// are equally near.
pub open spec fn nearest_even(n: nat, d: nat) -> nat {
    let q = n / d;
    let r = n % d;
    if 2 * r < d || (2 * r == d && q % 2 == 0) {
        q
    } else {
        q + 1
    }
}

/// The magnitude that is nearest to `n / d` units, exponents being unbounded:
/// the quotient keeps fifty-three significant bits, and an even last bit where
/// two magnitudes are equally near.
pub open spec fn round(n: nat, d: nat) -> nat
    decreases n - d,
{
    if d == 0 || n < d * 2 * BINADE {
        nearest_even(n, d)
    } else {
        BINADE as nat + round(n, 2 * d)
    }
}

/// The magnitude that `n / d` units round to: infinity where it is too large.
pub open spec fn round_finite(n: nat, d: nat) -> nat {
    if round(n, d) < INFINITE {
        round(n, d)
    } else {
        INFINITE as nat
    }
}

/// Where `n / d` lies: `q` is its whole part, `half` says whether the rest is
/// at least a half, and `more` whether anything remains beyond that.
pub open spec fn cell(n: int, d: int, q: int, half: bool, more: bool) -> bool {
    &&& d > 0
    &&& exists|r: int| #[trigger] in_cell(n, d, q, half, more, r)
}

/// The remainder `r` of `n / d` bears out the whole part and the two flags.
pub open spec fn in_cell(n: int, d: int, q: int, half: bool, more: bool, r: int) -> bool {
    &&& n == q * d + r
    &&& 0 <= r < d
    &&& half == (2 * r >= d)
    &&& more == (if half { 2 * r != d } else { r != 0 })
}

pub proof fn lemma_cell_intro(n: int, d: int, q: int, half: bool, more: bool, r: int)
    requires
        d > 0,
        in_cell(n, d, q, half, more, r),
    ensures
        cell(n, d, q, half, more),
{
}

pub proof fn lemma_cell_exact(q: int, d: int)
    requires
        d > 0,
    ensures
        cell(q * d, d, q, false, false),
{
    lemma_cell_intro(q * d, d, q, false, false, 0);
}

/// Halving a quotient shifts its last bit into the half flag.
pub proof fn lemma_cell_halve(n: int, d: int, q: int, half: bool, more: bool)
    requires
        cell(n, d, q, half, more),
        q >= 0,
    ensures
        cell(n, 2 * d, q / 2, q % 2 == 1, half || more),
{
    let r = choose|r: int| #[trigger] in_cell(n, d, q, half, more, r);
    let b = q % 2;
    let h = q / 2;
    assert(q == 2 * h + b);
    assert(q * d == h * (2 * d) + b * d) by (nonlinear_arith)
        requires
            q == 2 * h + b,
    ;
    let r2 = b * d + r;
    assert(b == 0 || b == 1);
    assert(b == 0 ==> b * d == 0) by (nonlinear_arith);
    assert(b == 1 ==> b * d == d) by (nonlinear_arith);
    lemma_cell_intro(n, 2 * d, h, b == 1, half || more, r2);
}

/// A common factor does not move the quotient.
pub proof fn lemma_cell_scale(n: int, d: int, q: int, half: bool, more: bool, k: int)
    requires
        cell(n, d, q, half, more),
        k > 0,
    ensures
        cell(n * k, d * k, q, half, more),
{
    let r = choose|r: int| #[trigger] in_cell(n, d, q, half, more, r);
    assert(n * k == q * (d * k) + r * k && 0 <= r * k < d * k && (2 * r >= d <==> 2 * (r * k) >= d * k) && (2
        * r == d <==> 2 * (r * k) == d * k) && (r == 0 <==> r * k == 0) && d * k > 0) by (nonlinear_arith)
        requires
            n == q * d + r,
            0 <= r < d,
            k > 0,
    ;
    lemma_cell_intro(n * k, d * k, q, half, more, r * k);
}

/// A common factor can be taken out.
pub proof fn lemma_cell_unscale(n: int, d: int, q: int, half: bool, more: bool, k: int)
    requires
        cell(n * k, d * k, q, half, more),
        k > 0,
        d > 0,
    ensures
        cell(n, d, q, half, more),
{
    let rk = choose|r: int| #[trigger] in_cell(n * k, d * k, q, half, more, r);
    let r = n - q * d;
    assert(rk == r * k && 0 <= r < d && (2 * r >= d <==> 2 * rk >= d * k) && (2 * r == d <==> 2 * rk == d
        * k) && (r == 0 <==> rk == 0)) by (nonlinear_arith)
        requires
            n * k == q * (d * k) + rk,
            r == n - q * d,
            0 <= rk < d * k,
            k > 0,
    ;
    lemma_cell_intro(n, d, q, half, more, r);
}

/// The flags decide the rounding.
pub proof fn lemma_cell_rounds(n: nat, d: nat, q: nat, half: bool, more: bool)
    requires
        cell(n as int, d as int, q as int, half, more),
    ensures
        nearest_even(n, d) == if half && (more || q % 2 == 1) {
            q + 1
        } else {
            q
        },
{
    let r = choose|r: int| #[trigger] in_cell(n as int, d as int, q as int, half, more, r);
    lemma_fundamental_div_mod_converse(n as int, d as int, q as int, r);
}

/// A quotient that reaches the binade `k` above the lowest is rounded there.
pub proof fn lemma_round_at(n: nat, d: nat, k: nat)
    requires
        d > 0,
        n < d * pow2(k) * 2 * BINADE,
        k > 0 ==> n >= d * pow2(k) * BINADE,
    ensures
        round(n, d) == k * BINADE + nearest_even(n, d * pow2(k)),
    decreases k,
{
    if k == 0 {
        lemma_pow2(0);
        assert(pow2(0) == 1) by {
            vstd::arithmetic::power2::lemma2_to64();
        }
        assert(d * pow2(k) == d) by (nonlinear_arith)
            requires
                pow2(k) == 1,
        ;
    } else {
        let j = (k - 1) as nat;
        lemma_pow2_unfold(k);
        lemma_pow2_pos(j);
        assert(d * pow2(k) == (2 * d) * pow2(j)) by (nonlinear_arith)
            requires
                pow2(k) == 2 * pow2(j),
        ;
        assert(d * pow2(k) >= 2 * d) by (nonlinear_arith)
            requires
                pow2(k) == 2 * pow2(j),
                pow2(j) >= 1,
        ;
        assert(n >= d * 2 * BINADE);
        lemma_round_at(n, 2 * d, j);
        assert(k * BINADE == j * BINADE + BINADE) by (nonlinear_arith)
            requires
                k == j + 1,
        ;
    }
}

/// Rounding does not depend on how the rational is written.
pub proof fn lemma_round_scale(n: nat, d: nat, k: nat)
    requires
        d > 0,
        k > 0,
    ensures
        round(n * k, d * k) == round(n, d),
    decreases n - d,
{
    assert(d * k > 0) by (nonlinear_arith)
        requires
            d > 0,
            k > 0,
    ;
    assert(n < d * 2 * BINADE <==> n * k < (d * k) * 2 * BINADE) by (nonlinear_arith)
        requires
            k > 0,
    ;
    if n < d * 2 * BINADE {
        lemma_fundamental_div_mod(n as int, d as int);
        let q = (n / d) as int;
        let r = (n % d) as int;
        assert(n == q * d + r) by (nonlinear_arith)
            requires
                n == d * q + r,
        ;
        assert(n * k == q * (d * k) + r * k && 0 <= r * k < d * k && (2 * r < d <==> 2 * (r * k) < d * k) && (2
            * r == d <==> 2 * (r * k) == d * k)) by (nonlinear_arith)
            requires
                n == q * d + r,
                0 <= r < d,
                k > 0,
        ;
        lemma_fundamental_div_mod_converse((n * k) as int, (d * k) as int, q, r * k);
    } else {
        lemma_round_scale(n, 2 * d, k);
        assert((2 * d) * k == 2 * (d * k)) by (nonlinear_arith);
    }
}

/// A magnitude of `e` whole binades above the lowest two, with fraction `f`.
pub proof fn lemma_units_at(m: nat, e: nat, f: nat)
    requires
        m == e * BINADE + f,
        f < 2 * BINADE,
        e > 0 ==> f >= BINADE,
    ensures
        units(m) == f * pow2(e),
    decreases e,
{
    if e == 0 {
        vstd::arithmetic::power2::lemma2_to64();
        assert(f * pow2(e) == f) by (nonlinear_arith)
            requires
                pow2(e) == 1,
        ;
    } else {
        let j = (e - 1) as nat;
        assert(e * BINADE == j * BINADE + BINADE) by (nonlinear_arith)
            requires
                e == j + 1,
        ;
        lemma_units_at((m - BINADE) as nat, j, f);
        lemma_pow2_unfold(e);
        assert(f * pow2(e) == 2 * (f * pow2(j))) by (nonlinear_arith)
            requires
                pow2(e) == 2 * pow2(j),
        ;
    }
}

/// A larger magnitude is worth more units, so the order of magnitudes is the
/// order of the numbers.
pub proof fn lemma_units_increase(a: nat, b: nat)
    requires
        a < b,
    ensures
        units(a) < units(b),
    decreases b,
{
    if b >= 2 * BINADE {
        if a >= 2 * BINADE {
            lemma_units_increase((a - BINADE) as nat, (b - BINADE) as nat);
        } else {
            let c = (b - BINADE) as nat;
            if c >= 2 * BINADE {
                lemma_units_increase(a, c);
            }
        }
    }
}

/// A number that a magnitude stands for rounds to that magnitude.
pub proof fn lemma_round_exact(m: nat)
    ensures
        round(units(m), 1) == m,
    decreases m,
{
    if m < 2 * BINADE {
        lemma_fundamental_div_mod_converse(m as int, 1, m as int, 0);
    } else {
        let c = (m - BINADE) as nat;
        lemma_round_exact(c);
        if c < 2 * BINADE {
            assert(units(c) == c);
        } else {
            lemma_units_increase((2 * BINADE - 1) as nat, c);
        }
        lemma_round_scale(units(c), 1, 2);
        assert(units(m) == units(c) * 2);
        assert(round(units(m), 1) == BINADE as nat + round(units(m), 2));
    }
}

/// What is at most a magnitude's worth does not round above that magnitude.
pub proof fn lemma_round_at_most(n: nat, d: nat, m: nat)
    requires
        d > 0,
        n <= units(m) * d,
    ensures
        round(n, d) <= m,
    decreases n - d,
{
    if n < d * 2 * BINADE {
        lemma_fundamental_div_mod(n as int, d as int);
        let q = n / d;
        let r = n % d;
        if m < 2 * BINADE {
            assert(q < m || (q == m && r == 0)) by (nonlinear_arith)
                requires
                    n == d * q + r,
                    n <= m * d,
                    0 <= r,
                    d > 0,
            ;
        } else {
            assert(q < 2 * BINADE) by (nonlinear_arith)
                requires
                    n == d * q + r,
                    n < d * 2 * BINADE,
                    0 <= r,
            ;
        }
    } else {
        if m < 2 * BINADE {
            assert(m * d < d * 2 * BINADE) by (nonlinear_arith)
                requires
                    m < 2 * BINADE,
                    d > 0,
            ;
        }
        let c = (m - BINADE) as nat;
        assert(units(m) * d == units(c) * (2 * d)) by (nonlinear_arith)
            requires
                units(m) == 2 * units(c),
        ;
        lemma_round_at_most(n, 2 * d, c);
    }
}

/// What is at least a magnitude's worth does not round below that magnitude.
pub proof fn lemma_round_at_least(n: nat, d: nat, m: nat)
    requires
        d > 0,
        units(m) * d <= n,
    ensures
        m <= round(n, d),
    decreases n - d,
{
    if m >= 2 * BINADE {
        lemma_units_increase((2 * BINADE - 1) as nat, m);
    }
    if n < d * 2 * BINADE {
        assert(units(m) < 2 * BINADE) by (nonlinear_arith)
            requires
                units(m) * d <= n,
                n < d * 2 * BINADE,
        ;
        lemma_fundamental_div_mod(n as int, d as int);
        let q = n / d;
        let r = n % d;
        assert(m <= q) by (nonlinear_arith)
            requires
                n == d * q + r,
                m * d <= n,
                r < d,
                d > 0,
        ;
    } else if m < 2 * BINADE {
        assert(BINADE * (2 * d) == d * 2 * BINADE) by (nonlinear_arith);
        lemma_round_at_least(n, 2 * d, BINADE as nat);
    } else {
        let c = (m - BINADE) as nat;
        assert(units(m) * d == units(c) * (2 * d)) by (nonlinear_arith)
            requires
                units(m) == 2 * units(c),
        ;
        lemma_round_at_least(n, 2 * d, c);
    }
}

/// Rounding keeps the order.
pub proof fn lemma_round_monotone(a: nat, b: nat, d: nat)
    requires
        d > 0,
        a <= b,
    ensures
        round(a, d) <= round(b, d),
        round_finite(a, d) <= round_finite(b, d),
    decreases b - d,
{
    if b < d * 2 * BINADE {
        lemma_fundamental_div_mod(a as int, d as int);
        lemma_fundamental_div_mod(b as int, d as int);
        let p = a / d;
        let q = b / d;
        assert(p < q || (p == q && a % d <= b % d)) by (nonlinear_arith)
            requires
                a == d * p + a % d,
                b == d * q + b % d,
                a <= b,
                d > 0,
                b % d < d,
                0 <= a % d,
        ;
    } else if a < d * 2 * BINADE {
        let m = (2 * BINADE) as nat;
        assert(units((m - BINADE) as nat) == BINADE);
        assert(units(m) * d == d * 2 * BINADE) by (nonlinear_arith)
            requires
                units(m) == 2 * BINADE,
        ;
        lemma_round_at_most(a, d, m);
        lemma_round_at_least(b, d, m);
    } else {
        lemma_round_monotone(a, b, 2 * d);
    }
}

/// Rounding moves a number that is not subnormal by at most one part in `2^53`.
pub proof fn lemma_round_is_near(n: nat, d: nat)
    requires
        d > 0,
        BINADE * d <= n,
    ensures
        -(n as int) <= (units(round(n, d)) * d - n) * (2 * BINADE) <= n,
    decreases n - d,
{
    let m = round(n, d);
    lemma_round_at_least(n, d, BINADE as nat);
    if n < d * 2 * BINADE {
        lemma_fundamental_div_mod(n as int, d as int);
        let q = n / d;
        let r = n % d;
        assert(q < 2 * BINADE) by (nonlinear_arith)
            requires
                n == d * q + r,
                n < d * 2 * BINADE,
                0 <= r,
        ;
        let c = BINADE as nat;
        assert(units(c) == c);
        assert(units(m) == m);
        assert(-(d as int) <= 2 * (m * d - n) <= d) by (nonlinear_arith)
            requires
                n == d * q + r,
                (m == q && 2 * r <= d) || (m == q + 1 && 2 * r >= d),
                0 <= r < d,
        ;
        assert(-(n as int) <= (m * d - n) * (2 * BINADE) <= n) by (nonlinear_arith)
            requires
                -(d as int) <= 2 * (m * d - n) <= d,
                BINADE * d <= n,
        ;
    } else {
        let c = round(n, 2 * d);
        assert(BINADE * (2 * d) == d * 2 * BINADE) by (nonlinear_arith);
        lemma_round_is_near(n, 2 * d);
        lemma_round_at_least(n, 2 * d, BINADE as nat);
        assert(units(m) * d == units(c) * (2 * d)) by (nonlinear_arith)
            requires
                units(m) == 2 * units(c),
        ;
    }
}

/// Rounding moves a number by at most one part in `2^53`, and a subnormal one by
/// at most one unit.
pub proof fn lemma_round_is_near_enough(n: nat, d: nat)
    requires
        d > 0,
    ensures
        -(n + 2 * BINADE * d) <= (units(round(n, d)) * d - n) * (2 * BINADE) <= n + 2 * BINADE * d,
        d == 1 ==> -(n as int) <= (units(round(n, d)) - n) * (2 * BINADE) <= n,
{
    if BINADE * d <= n {
        lemma_round_is_near(n, d);
        assert(2 * BINADE * d >= 0) by (nonlinear_arith);
        if d == 1 {
            assert(units(round(n, d)) * d == units(round(n, d))) by (nonlinear_arith)
                requires
                    d == 1,
            ;
        }
    } else {
        assert(n < d * 2 * BINADE) by (nonlinear_arith)
            requires
                n < BINADE * d,
        ;
        lemma_fundamental_div_mod(n as int, d as int);
        let m = round(n, d);
        let q = n / d;
        let r = n % d;
        assert(q < BINADE) by (nonlinear_arith)
            requires
                n == d * q + r,
                n < BINADE * d,
                0 <= r,
        ;
        assert(units(m) == m);
        assert(-(d as int) <= m * d - n <= d) by (nonlinear_arith)
            requires
                n == d * q + r,
                m == q || m == q + 1,
                0 <= r < d,
        ;
        assert(-(n + 2 * BINADE * d) <= (m * d - n) * (2 * BINADE) <= n + 2 * BINADE * d) by (nonlinear_arith)
            requires
                -(d as int) <= m * d - n <= d,
        ;
        if d == 1 {
            assert(r == 0);
            assert(m == n);
        }
    }
}

/// The next magnitude is worth more by at least one part in `2^53`.
pub proof fn lemma_next_adds_enough(m: nat)
    ensures
        units(m) * (2 * BINADE + 1) <= 2 * BINADE * units(m + 1),
    decreases m,
{
    if m >= 2 * BINADE {
        lemma_next_adds_enough((m - BINADE) as nat);
    } else if m + 1 >= 2 * BINADE {
        assert(units((m + 1 - BINADE) as nat) == m + 1 - BINADE);
    }
}

/// The next magnitude is worth more by at most one part in `2^52`, or by one unit.
pub proof fn lemma_next_adds_little(m: nat)
    ensures
        (units(m + 1) - units(m)) * BINADE <= units(m) + BINADE,
    decreases m,
{
    if m >= 2 * BINADE {
        let c = (m - BINADE) as nat;
        lemma_next_adds_little(c);
        lemma_units_increase(c, c + 1);
        let d = units(c + 1) - units(c);
        assert(units(m + 1) == 2 * units(c + 1) && units(m) == 2 * units(c));
        if c < 2 * BINADE {
            assert(units(c) == c);
            assert(c + 1 < 2 * BINADE || units(c + 1) == 2 * units((c + 1 - BINADE) as nat));
            assert(d <= 1) by {
                if c + 1 >= 2 * BINADE {
                    assert(units((c + 1 - BINADE) as nat) == c + 1 - BINADE);
                }
            }
            assert(2 * d * BINADE <= 2 * c);
        } else {
            lemma_big_steps(c);
            assert((2 * d) * BINADE == 2 * (d * BINADE)) by (nonlinear_arith);
        }
    } else if m + 1 >= 2 * BINADE {
        assert(units((m + 1 - BINADE) as nat) == m + 1 - BINADE);
    }
}

proof fn lemma_big_steps(m: nat)
    requires
        m >= BINADE,
    ensures
        (units(m + 1) - units(m)) * BINADE <= units(m),
    decreases m,
{
    if m >= 2 * BINADE {
        let c = (m - BINADE) as nat;
        lemma_big_steps(c);
        let d = units(c + 1) - units(c);
        assert((2 * d) * BINADE == 2 * (d * BINADE)) by (nonlinear_arith);
    } else if m + 1 >= 2 * BINADE {
        assert(units((m + 1 - BINADE) as nat) == m + 1 - BINADE);
    }
}

/// The magnitude of `f` times a power of two: there is one where `f` has at
/// most fifty-three bits.
pub proof fn lemma_scaled_is_a_magnitude(f: nat, e: nat) -> (m: nat)
    requires
        f < 2 * BINADE,
    ensures
        units(m) == f * pow2(e),
    decreases e,
{
    if e == 0 {
        vstd::arithmetic::power2::lemma2_to64();
        assert(f * pow2(e) == f) by (nonlinear_arith)
            requires
                pow2(e) == 1,
        ;
        f
    } else {
        let j = (e - 1) as nat;
        let c = lemma_scaled_is_a_magnitude(f, j);
        lemma_pow2_unfold(e);
        assert(f * pow2(e) == 2 * (f * pow2(j))) by (nonlinear_arith)
            requires
                pow2(e) == 2 * pow2(j),
        ;
        if c < BINADE {
            2 * c
        } else {
            c + BINADE as nat
        }
    }
}

} // verus!
