//! What holds of the returns that the strategies go by.

use crate::funding_cycle_strategy::{asks_exit, exit_order, yearly};
use crate::market::changes::lemma_year;
use crate::models::{BatchReduceRequest, Position};
use crate::num::about::{
    about, fine, lemma_difference_is_near, lemma_one_is_fine, lemma_product_is_near, lemma_quotient_is_near,
    lemma_whole_number, one,
};
use crate::num::constants::{HUNDRED_MILLIONTH, ONE, TEN, THOUSANDTH, TWO_THOUSANDTHS, YEAR_HOURS, ZERO};
use crate::num::double::{lemma_order_is_numeric, of_int, size, ONE_EXPONENT};
use crate::num::order::{
    lemma_neg_turns, lemma_one, lemma_product_sign, lemma_quotient_sign, lemma_sub_monotone, lemma_zero_is_neutral,
};
use crate::num::rounding::{lemma_units_at, units, BINADE};
use crate::num::Double;
use crate::spread_strategy::{held_hours, opened, reconciled, target_after, SpreadStrategyTrade};
use crate::trading::sizing::lemma_both_sides;
use vstd::arithmetic::power2::{lemma2_to64, lemma2_to64_rest, lemma_pow2_adds, lemma_pow2_pos, pow2};
use vstd::prelude::*;

verus! {

/// The hours that a trade is reckoned to be held are the full ones since it was
/// opened: none before the first is over, and five at most.
pub proof fn lemma_full_hours_are_counted(trade: SpreadStrategyTrade, now: i64)
    ensures
        ({
            let since = now - (match trade.opened_at {
                Some(at) => at,
                None => trade.signal_at,
            });
            let hours = held_hours(trade, now);
            &&& 0 <= hours <= 5
            &&& since < 3_600_000 ==> hours == 0
            &&& 0 <= since < 18_000_000 ==> hours * 3_600_000 <= since < (hours + 1) * 3_600_000
            &&& since >= 18_000_000 ==> hours == 5
        }),
{
    assert(opened(trade) == (match trade.opened_at {
        Some(at) => at,
        None => trade.signal_at,
    }));
}

/// What two thousandths, a thousandth, a hundred-millionth and ten come to.
proof fn lemma_small_constants()
    ensures
        about(Double { bits: TWO_THOUSANDTHS }, 2 * one(), 1000, 1),
        about(Double { bits: THOUSANDTH }, one(), 1000, 1),
        about(Double { bits: HUNDRED_MILLIONTH }, one(), 100_000_000, 1),
        (Double { bits: TEN }).value() == 10 * one(),
{
    let t = (THOUSANDTH - 1012 * BINADE) as nat;
    let w = (TWO_THOUSANDTHS - 1013 * BINADE) as nat;
    let h = (HUNDRED_MILLIONTH - 995 * BINADE) as nat;
    let g = (TEN - 1025 * BINADE) as nat;
    lemma_units_at(THOUSANDTH as nat, 1012, t);
    lemma_units_at(TWO_THOUSANDTHS as nat, 1013, w);
    lemma_units_at(HUNDRED_MILLIONTH as nat, 995, h);
    lemma_units_at(TEN as nat, 1025, g);
    lemma2_to64_rest();
    lemma2_to64();
    lemma_pow2_adds(62, 1012);
    lemma_pow2_adds(1, 1012);
    lemma_pow2_adds(49, 1025);
    lemma_pow2_adds(52, 27);
    lemma_pow2_adds(79, 995);
    let e = pow2(1012);
    let d = pow2(995);
    lemma_pow2_pos(1012);
    lemma_pow2_pos(995);
    lemma_pow2_pos(1025);
    assert(t == w);
    assert(t == 0x10_624d_d2f1_a9fc);
    assert(h == 6044629098073146);
    assert(g == 10 * pow2(49));
    let u = one();
    assert(u == 0x4000_0000_0000_0000 * e);
    let f = fine();
    assert(f * ((t * e) * 1000) <= (f + 1) * u && (f - 1) * u <= f * ((t * e) * 1000)) by (nonlinear_arith)
        requires
            u == 0x4000_0000_0000_0000 * e,
            t == 0x10_624d_d2f1_a9fc,
            f == 0x20_0000_0000_0000,
            e > 0,
    ;
    assert(w * (2 * e) == 2 * (t * e)) by (nonlinear_arith)
        requires
            t == w,
    ;
    let v = w * (2 * e);
    assert(f * (v * 1000) <= (f + 1) * (2 * u) && (f - 1) * (2 * u) <= f * (v * 1000)) by (nonlinear_arith)
        requires
            v == 2 * (t * e),
            f * ((t * e) * 1000) <= (f + 1) * u,
            (f - 1) * u <= f * ((t * e) * 1000),
    ;
    assert(u == (0x10_0000_0000_0000 * 0x800_0000) * d);
    assert(f * ((h * d) * 100_000_000) <= (f + 1) * u && (f - 1) * u <= f * ((h * d) * 100_000_000)) by (nonlinear_arith)
        requires
            u == (0x10_0000_0000_0000 * 0x800_0000) * d,
            h == 6044629098073146,
            f == 0x20_0000_0000_0000,
            d > 0,
    ;
    let k = pow2(1025);
    assert(g * k == 10 * (pow2(49) * k)) by (nonlinear_arith)
        requires
            g == 10 * pow2(49),
    ;
}

/// The return at which a trade is left is what it was entered for less two
/// thousandths for every hour, and never less than zero.
pub proof fn lemma_target_falls_by_the_hour(entry: Double, held: i64)
    requires
        entry.finite(),
        !entry.negative(),
        0 <= held < 5,
    ensures
        ({
            let t = target_after(entry, held);
            let step = (Double { bits: TWO_THOUSANDTHS }).value();
            let exact = if entry.value() - held * step < 0 {
                0
            } else {
                entry.value() - held * step
            };
            &&& (Double { bits: ZERO }).le_spec(t)
            &&& about(Double { bits: TWO_THOUSANDTHS }, 2 * one(), 1000, 1)
            &&& t.finite()
            &&& fine() * size(t.value() - exact) <= 3 * (size(entry.value()) + held * step) + 3 * fine()
        }),
{
    lemma_small_constants();
    let zero = Double { bits: ZERO };
    let step = Double { bits: TWO_THOUSANDTHS };
    let s = step.value();
    let u = one();
    let f = fine();
    lemma_one_is_fine();
    lemma_pow2_pos(ONE_EXPONENT as nat);
    let n = of_int(held as int);
    let fall = n.mul_spec(step);
    assert(units(0) == 0);
    assert(s >= 0);
    if held > 0 {
        lemma_whole_number(held as int);
    } else {
        assert(n.value() == 0 * u) by {
            assert(n.zero());
            assert(0 * u == 0) by (nonlinear_arith);
        }
    }
    assert(n.finite() && n.value() == held * u);
    let hs = held * s;
    assert((held * u) * s == hs * u) by (nonlinear_arith)
        requires
            hs == held * s,
    ;
    assert(fall.finite()) by {
        lemma_fall_is_finite(held as int);
    }
    lemma_product_is_near(n, step);
    let p = fall.value();
    let x = p - hs;
    assert(p * u - hs * u == x * u) by (nonlinear_arith)
        requires
            x == p - hs,
    ;
    assert(hs >= 0) by (nonlinear_arith)
        requires
            hs == held * s,
            held >= 0,
            s >= 0,
    ;
    lemma_size_scales(x, u);
    lemma_size_scales(hs, u);
    let sx = size(x);
    assert(f * sx <= hs + f) by (nonlinear_arith)
        requires
            f * (sx * u) <= hs * u + f * u,
            u > 0,
    ;
    let d = entry.sub_spec(fall);
    lemma_neg_turns(fall);
    let t = d.max_spec(zero);
    lemma_product_sign(n, step);
    lemma_zero_is_neutral(entry);
    lemma_zero_is_neutral(fall);
    assert(!d.nan());
    lemma_sub_monotone(entry, entry, fall, zero);
    lemma_sub_monotone(zero, entry, fall, fall);
    assert(d.finite());
    lemma_difference_is_near(entry, fall);
    let a = entry.value();
    let y = size(d.value() - (a - p));
    assert(p <= 2 * hs + 1) by (nonlinear_arith)
        requires
            f * sx <= hs + f,
            p - hs <= sx,
            f == 0x20_0000_0000_0000,
            hs >= 0,
    ;
    let exact = if a - hs < 0 {
        0
    } else {
        a - hs
    };
    let z = size(t.value() - exact);
    assert(z <= sx + y);
    assert(f * z <= f * sx + f * y) by (nonlinear_arith)
        requires
            z <= sx + y,
            f == 0x20_0000_0000_0000,
    ;
    assert(size(a - p) <= size(a) + 2 * hs + 1);
}

/// A fall of less than five steps is a number.
proof fn lemma_fall_is_finite(held: int)
    requires
        0 <= held < 5,
    ensures
        of_int(held).mul_spec(Double { bits: TWO_THOUSANDTHS }).finite(),
        of_int(held).mul_spec(Double { bits: TWO_THOUSANDTHS }).value() <= 10 * one(),
{
    let step = Double { bits: TWO_THOUSANDTHS };
    let n = of_int(held);
    let ten = Double { bits: TEN };
    lemma_small_constants();
    lemma_pow2_pos(ONE_EXPONENT as nat);
    let u = one();
    assert(units(0) == 0);
    if held > 0 {
        lemma_whole_number(held);
    } else {
        assert(n.zero());
        assert(0 * u == 0) by (nonlinear_arith);
    }
    let a = units(n.magnitude());
    let b = units(step.magnitude());
    assert(a == held * u && b == step.value());
    assert(b <= u) by (nonlinear_arith)
        requires
            fine() * (b * 1000) <= (fine() + 1) * (2 * u),
            fine() == 0x20_0000_0000_0000,
            u > 0,
    ;
    assert(a * b <= units(TEN as nat) * u) by (nonlinear_arith)
        requires
            a == held * u,
            0 <= held < 5,
            0 <= b <= u,
            units(TEN as nat) == 10 * u,
            u > 0,
    ;
    crate::num::rounding::lemma_round_at_most(a * b, pow2(ONE_EXPONENT as nat), TEN as nat);
    let r = n.mul_spec(step);
    assert(r.magnitude() <= TEN);
    lemma_order_is_numeric(r, ten);
}

/// The size of a product with a positive number.
pub proof fn lemma_size_scales(x: int, u: int)
    requires
        u > 0,
    ensures
        size(x * u) == size(x) * u,
{
    assert(x < 0 ==> x * u < 0) by (nonlinear_arith)
        requires
            u > 0,
    ;
    assert(x >= 0 ==> x * u >= 0) by (nonlinear_arith)
        requires
            u > 0,
    ;
    assert((-x) * u == -(x * u)) by (nonlinear_arith);
}

/// A quantity is as expected where it is off by a thousandth at most, or by a
/// hundred-millionth, up to a hundredth of that.
pub proof fn lemma_a_thousandth_is_tolerated(actual: Double, expected: Double)
    requires
        actual.finite(),
        expected.finite(),
        actual.sub_spec(expected).finite(),
        expected.abs_spec().mul_spec(Double { bits: THOUSANDTH }).finite(),
    ensures
        ({
            let off = size(actual.value() - expected.value());
            &&& reconciled(actual, expected) ==> 100_000 * off <= 101 * size(expected.value()) + 300_000 || 99_000_000
                * off <= one()
            &&& !reconciled(actual, expected) ==> 101_000 * off + 300_000 >= 100 * size(expected.value()) && 101_000_000
                * off >= one()
        }),
{
    lemma_small_constants();
    let thousandth = Double { bits: THOUSANDTH };
    let least = Double { bits: HUNDRED_MILLIONTH };
    let e = expected.abs_spec();
    let d = actual.sub_spec(expected).abs_spec();
    let p = e.mul_spec(thousandth);
    let bound = p.max_spec(least);
    let f = fine();
    let u = one();
    lemma_one_is_fine();
    lemma_pow2_pos(ONE_EXPONENT as nat);
    lemma_neg_turns(expected);
    lemma_difference_is_near(actual, expected);
    lemma_product_is_near(e, thousandth);
    lemma_product_sign(e, thousandth);
    lemma_order_is_numeric(d, bound);
    lemma_order_is_numeric(p, least);
    let off = size(actual.value() - expected.value());
    let dv = d.value();
    let ev = e.value();
    let t = thousandth.value();
    let pv = p.value();
    let lv = least.value();
    assert(ev == size(expected.value()));
    assert(dv == size(actual.sub_spec(expected).value()));
    assert(f * size(dv - off) <= off) by {
        let r = actual.sub_spec(expected).value();
        let k = actual.value() - expected.value();
        assert(size(dv - off) <= size(r - k));
        assert(f * size(dv - off) <= f * size(r - k)) by (nonlinear_arith)
            requires
                size(dv - off) <= size(r - k),
                f == 0x20_0000_0000_0000,
        ;
    }
    lemma_both_sides(f, dv - off);
    assert(ev >= 0 && t >= 0 && dv >= 0 && off >= 0);
    let et = ev * t;
    assert(et >= 0) by (nonlinear_arith)
        requires
            et == ev * t,
            ev >= 0,
            t >= 0,
    ;
    lemma_both_sides(f, pv * u - et);
    // The thousandth part.
    assert(f * (et * 1000) <= (f + 1) * (ev * u) && (f - 1) * (ev * u) <= f * (et * 1000)) by (nonlinear_arith)
        requires
            f * (t * 1000) <= (f + 1) * u,
            (f - 1) * u <= f * (t * 1000),
            et == ev * t,
            ev >= 0,
    ;
    let pu = pv * u;
    let eu = ev * u;
    assert(f * pu <= (f + 1) * et + f * u && (f - 1) * et <= f * pu + f * u) by (nonlinear_arith)
        requires
            f * (pu - et) <= et + f * u,
            -(f * (pu - et)) <= et + f * u,
    ;
    assert(1000 * pu <= eu + eu / 1_000_000 + 2000 * u + 1 && eu <= 1000 * pu + 2000 * u + eu / 1_000_000 + 1) by {
        lemma_thousandth(f, et, eu, pu, u);
    }
    lemma_off(f, off, dv, ev, pv, lv, u);
    if reconciled(actual, expected) {
        assert(dv <= pv || dv <= lv);
    } else {
        assert(dv >= pv && dv >= lv);
    }
}

proof fn lemma_thousandth(f: int, et: int, eu: int, pu: int, u: int)
    requires
        f == 0x20_0000_0000_0000,
        et >= 0,
        eu >= 0,
        u > 0,
        f * (et * 1000) <= (f + 1) * eu,
        (f - 1) * eu <= f * (et * 1000),
        f * pu <= (f + 1) * et + f * u,
        (f - 1) * et <= f * pu + f * u,
    ensures
        1000 * pu <= eu + eu / 1_000_000 + 2000 * u + 1,
        eu <= 1000 * pu + 2000 * u + eu / 1_000_000 + 1,
{
    assert(0x20_0000_0000_0000 * (et * 1000) <= 0x20_0000_0000_0001 * eu);
    assert(0x1f_ffff_ffff_ffff * eu <= 0x20_0000_0000_0000 * (et * 1000));
    assert(0x20_0000_0000_0000 * pu <= 0x20_0000_0000_0001 * et + 0x20_0000_0000_0000 * u);
    assert(0x1f_ffff_ffff_ffff * et <= 0x20_0000_0000_0000 * pu + 0x20_0000_0000_0000 * u);
}

proof fn lemma_off(f: int, off: int, dv: int, ev: int, pv: int, lv: int, u: int)
    requires
        f == 0x20_0000_0000_0000,
        off >= 0,
        ev >= 0,
        u >= f,
        f * (dv - off) <= off,
        -(f * (dv - off)) <= off,
        1000 * (pv * u) <= ev * u + (ev * u) / 1_000_000 + 2000 * u + 1,
        ev * u <= 1000 * (pv * u) + 2000 * u + (ev * u) / 1_000_000 + 1,
        f * (lv * 100_000_000) <= (f + 1) * u,
        (f - 1) * u <= f * (lv * 100_000_000),
    ensures
        dv <= pv ==> 100_000 * off <= 101 * ev + 300_000,
        dv <= lv ==> 99_000_000 * off <= u,
        dv >= pv ==> 101_000 * off + 300_000 >= 100 * ev,
        dv >= lv ==> 101_000_000 * off >= u,
{
    let pu = pv * u;
    let eu = ev * u;
    assert(1_000_000 * ((1000 * pv - ev - 2001) * u) <= eu) by (nonlinear_arith)
        requires
            1000 * pu <= eu + eu / 1_000_000 + 2000 * u + 1,
            pu == pv * u,
            eu == ev * u,
            u >= 1,
            eu / 1_000_000 * 1_000_000 <= eu,
    ;
    assert(1_000_000 * (1000 * pv - ev - 2001) <= ev) by (nonlinear_arith)
        requires
            1_000_000 * ((1000 * pv - ev - 2001) * u) <= eu,
            eu == ev * u,
            u >= 1,
    ;
    assert(1_000_000 * ((ev - 1000 * pv - 2001) * u) <= eu) by (nonlinear_arith)
        requires
            eu <= 1000 * pu + 2000 * u + eu / 1_000_000 + 1,
            pu == pv * u,
            eu == ev * u,
            u >= 1,
            eu / 1_000_000 * 1_000_000 <= eu,
    ;
    assert(1_000_000 * (ev - 1000 * pv - 2001) <= ev) by (nonlinear_arith)
        requires
            1_000_000 * ((ev - 1000 * pv - 2001) * u) <= eu,
            eu == ev * u,
            u >= 1,
    ;
    assert(0x20_0000_0000_0000 * (dv - off) <= off && -(0x20_0000_0000_0000 * (dv - off)) <= off);
    assert(0x20_0000_0000_0000 * (lv * 100_000_000) <= 0x20_0000_0000_0001 * u);
    assert(0x1f_ffff_ffff_ffff * u <= 0x20_0000_0000_0000 * (lv * 100_000_000));
}

/// The yearly return of an hourly one is that of a year of such hours, on the same
/// side of zero.
pub proof fn lemma_a_year_of_hourly_returns(hourly: Double)
    requires
        hourly.finite(),
        yearly(hourly).finite(),
    ensures
        ({
            let zero = Double { bits: ZERO };
            &&& zero.le_spec(hourly) ==> zero.le_spec(yearly(hourly))
            &&& hourly.le_spec(zero) ==> yearly(hourly).le_spec(zero)
            &&& fine() * size(yearly(hourly).value() - hourly.value() * 8760) <= size(hourly.value() * 8760) + fine()
        }),
{
    let year = Double { bits: YEAR_HOURS };
    lemma_year();
    lemma_product_sign(hourly, year);
    lemma_product_is_near(hourly, year);
    let u = one();
    let f = fine();
    lemma_pow2_pos(ONE_EXPONENT as nat);
    let a = yearly(hourly).value();
    let b = hourly.value();
    let c = b * 8760;
    assert(b * (8760 * u) == c * u && a * u - c * u == (a - c) * u) by (nonlinear_arith)
        requires
            c == b * 8760,
    ;
    lemma_size_scales(a - c, u);
    lemma_size_scales(c, u);
    let s = size(a - c);
    let t = size(c);
    assert(f * s <= t + f) by (nonlinear_arith)
        requires
            f * (s * u) <= t * u + f * u,
            u > 0,
    ;
}

/// An exit is made in orders of a tenth of the position, of ten at least, and never of
/// more than the position; it closes all of it and takes any spread.
pub proof fn lemma_an_exit_is_made_in_tenths(request: BatchReduceRequest, position: Position)
    requires
        asks_exit(request, position),
        position.notional_usdt.finite(),
        !position.notional_usdt.negative(),
    ensures
        ({
            let n = position.notional_usdt;
            let order = request.order_notional_usdt;
            &&& order.le_spec(n)
            &&& n.value() >= 10 * one() ==> (Double { bits: TEN }).le_spec(order)
            &&& n.value() <= 10 * one() ==> order.eq_spec(n)
            &&& n.value() >= 101 * one() ==> fine() * size(order.value() * 10 - n.value()) <= n.value() + 10 * fine()
            &&& request.target_notional_usdt == n && request.close_all && !request.no_loss_guard
        }),
{
    lemma_small_constants();
    let ten = Double { bits: TEN };
    let n = position.notional_usdt;
    let q = n.div_spec(ten);
    let u = one();
    let f = fine();
    lemma_one_is_fine();
    lemma_pow2_pos(ONE_EXPONENT as nat);
    lemma_quotient_sign(n, ten);
    lemma_order_is_numeric(ten, n);
    lemma_order_is_numeric(n, ten);
    let big = exit_order(n);
    assert(q.le_spec(n)) by {
        let v = units(n.magnitude());
        let w = units(TEN as nat);
        assert(w == 10 * u);
        assert(v * u <= v * w) by (nonlinear_arith)
            requires
                w == 10 * u,
                u > 0,
                v >= 0,
        ;
        crate::num::rounding::lemma_round_at_most(v * pow2(ONE_EXPONENT as nat), w, n.magnitude());
    }
    assert(q.finite());
    lemma_quotient_is_near(n, ten);
    let a = q.value();
    let b = n.value();
    assert(a * (10 * u) == (a * 10) * u) by (nonlinear_arith);
    let x = a * 10 - b;
    assert((a * 10) * u - b * u == x * u) by (nonlinear_arith)
        requires
            x == a * 10 - b,
    ;
    lemma_size_scales(x, u);
    assert(f * (10 * u) == (10 * f) * u) by (nonlinear_arith);
    let s = size(x);
    assert(f * s <= b + 10 * f) by (nonlinear_arith)
        requires
            f * (s * u) <= b * u + (10 * f) * u,
            u > 0,
    ;
    if b >= 101 * u {
        assert(f <= u) by (nonlinear_arith)
            requires
                f * f <= u,
                f == 0x20_0000_0000_0000,
        ;
        assert(a >= 10 * u) by (nonlinear_arith)
            requires
                f * s <= b + 10 * f,
                b - a * 10 <= s,
                b >= 101 * u,
                u >= f,
                f == 0x20_0000_0000_0000,
        ;
        lemma_order_is_numeric(ten, q);
        lemma_order_is_numeric(q, ten);
    }
}

/// The yearly return of an hourly one is a hundred percent where a year of such hours
/// pays as much as was put in, up to rounding.
pub proof fn lemma_a_full_yield_is_a_year_of_hours(hourly: Double)
    requires
        hourly.finite(),
        yearly(hourly).finite(),
    ensures
        (Double { bits: ONE }).le_spec(yearly(hourly)) ==> fine() * (one() - hourly.value() * 8760) <= size(
            hourly.value() * 8760,
        ) + fine(),
        !(Double { bits: ONE }).le_spec(yearly(hourly)) ==> fine() * (hourly.value() * 8760 - one()) <= size(
            hourly.value() * 8760,
        ) + fine(),
{
    let full = Double { bits: ONE };
    let y = yearly(hourly);
    let f = fine();
    lemma_a_year_of_hourly_returns(hourly);
    lemma_one();
    lemma_order_is_numeric(full, y);
    let k = hourly.value() * 8760;
    lemma_both_sides(f, y.value() - k);
    if full.le_spec(y) {
        assert(f * (one() - k) <= f * (y.value() - k)) by (nonlinear_arith)
            requires
                one() <= y.value(),
                f == 0x20_0000_0000_0000,
        ;
    } else {
        assert(f * (k - one()) <= -(f * (y.value() - k))) by (nonlinear_arith)
            requires
                y.value() <= one(),
                f == 0x20_0000_0000_0000,
        ;
    }
}

/// A return above two thousandths of an hour is worth an entry, one of that at most is
/// not.
pub proof fn lemma_entry_threshold(hourly: Double)
    requires
        hourly.finite(),
    ensures
        !hourly.le_spec(Double { bits: TWO_THOUSANDTHS }) ==> 1000 * hourly.value() >= 2 * one(),
        hourly.le_spec(Double { bits: TWO_THOUSANDTHS }) ==> 999 * hourly.value() <= 2 * one(),
{
    let step = Double { bits: TWO_THOUSANDTHS };
    lemma_small_constants();
    lemma_pow2_pos(ONE_EXPONENT as nat);
    lemma_order_is_numeric(hourly, step);
    let t = step.value();
    let u = one();
    assert(t * 1000 >= 2 * u) by {
        lemma_two_thousandths();
    }
    assert(t * 999 <= 2 * u) by (nonlinear_arith)
        requires
            fine() * (t * 1000) <= (fine() + 1) * (2 * u),
            fine() == 0x20_0000_0000_0000,
            u > 0,
            t >= 0,
    ;
}

/// The number for two thousandths is not below them.
proof fn lemma_two_thousandths()
    ensures
        (Double { bits: TWO_THOUSANDTHS }).value() * 1000 >= 2 * one(),
{
    let w = (TWO_THOUSANDTHS - 1013 * BINADE) as nat;
    lemma_units_at(TWO_THOUSANDTHS as nat, 1013, w);
    lemma2_to64_rest();
    lemma_pow2_adds(61, 1013);
    let e = pow2(1013);
    lemma_pow2_pos(1013);
    assert(w == 0x10_624d_d2f1_a9fc);
    assert(one() == 0x2000_0000_0000_0000 * e);
    assert((w * e) * 1000 >= 2 * one()) by (nonlinear_arith)
        requires
            one() == 0x2000_0000_0000_0000 * e,
            w == 0x10_624d_d2f1_a9fc,
            e > 0,
    ;
}

} // verus!
