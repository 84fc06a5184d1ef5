//! What orders are worth: as much as was asked for, and no more.

use crate::models::Opportunity;
use crate::num::about::{
    fine, lemma_difference_is_near, lemma_one_is_fine, lemma_product_is_near, lemma_quotient_is_near, one,
};
use crate::num::constants::ZERO;
use crate::num::double::{lemma_floor_is_exact, lemma_order_is_numeric, size, ONE_EXPONENT};
use crate::num::order::{
    lemma_neg_turns, lemma_product_sign, lemma_quotient_sign, lemma_sub_tells_the_larger, positive,
};
use crate::num::rounding::{lemma_next_adds_little, lemma_units_increase, units, BINADE};
use crate::num::Double;
use crate::trading::amounts::{floored, lemma_floored_is_covered};
use crate::trading::fills::{close_total, guard_total};
use crate::trading::guard::GuardRun;
use crate::trading::no_loss::NoLossRun;
use crate::trading::plan::OrderPlan;
use vstd::arithmetic::div_mod::lemma_fundamental_div_mod;
use vstd::arithmetic::power2::lemma_pow2_pos;
use vstd::prelude::*;

verus! {

/// Whether a quantity is worth an amount of units at a price: never more, and less
/// by a step of the quantity at most, up to rounding.
pub open spec fn worth_up_to_a_step(quantity: Double, price: Double, amount: int, step: Double) -> bool {
    let worth = quantity.value() * price.value();
    let a = amount * one();
    let grain = step.value() * price.value();
    &&& fine() * (worth - a) <= 15 * a + 3 * (fine() * price.value())
    &&& fine() * (a - worth - grain) <= 15 * a + grain + 3 * (fine() * price.value())
}

/// Whether a number is that of whole steps, up to rounding.
pub open spec fn is_whole_steps(quantity: Double, step: Double) -> bool {
    exists|count: int| #[trigger] is_steps(quantity, step, count)
}

pub open spec fn is_steps(quantity: Double, step: Double, count: int) -> bool {
    count >= 0 && fine() * size(quantity.value() - count * step.value()) <= count * step.value() + fine()
}

/// A value that is cut down to whole steps is not raised, and is cut by less than a
/// step, up to rounding.
pub proof fn lemma_cut_is_less_than_a_step(value: Double, step: Double)
    requires
        value.finite(),
        !value.negative(),
        step.finite(),
        positive(step),
        floored(value, step).finite(),
    ensures
        ({
            let cut = floored(value, step);
            &&& !cut.negative()
            &&& fine() * (cut.value() - value.value()) <= 2 * value.value() + fine()
            &&& fine() * (value.value() - step.value() - cut.value()) <= 3 * value.value() + step.value() + fine()
            &&& is_whole_steps(cut, step)
        }),
{
    let steps = value.div_spec(step);
    let count = steps.floor_spec();
    let cut = floored(value, step);
    let f = fine();
    let u = one();
    lemma_one_is_fine();
    lemma_pow2_pos(ONE_EXPONENT as nat);
    lemma_quotient_sign(value, step);
    lemma_units_increase(0, step.magnitude());
    assert(!steps.nan() && !steps.negative());
    assert(steps.finite()) by {
        if steps.infinite() {
            assert(count == steps);
            assert(cut.infinite() || cut.nan());
        }
    }
    lemma_floor_is_exact(steps);
    lemma_floored_is_covered(value, step);
    lemma_product_sign(count, step);
    assert(!cut.negative());
    let v = value.value();
    let s = step.value();
    let k = steps.value();
    let w = count.value();
    let c = cut.value();
    // Not raised.
    let m = value.magnitude();
    lemma_next_adds_little(m);
    if cut.magnitude() < m + 1 {
        lemma_units_increase(cut.magnitude(), m + 1);
    }
    assert(c <= units(m + 1));
    assert(f * (c - v) <= 2 * v + f) by (nonlinear_arith)
        requires
            (units(m + 1) - v) * BINADE <= v + BINADE,
            c <= units(m + 1),
            f == 2 * BINADE,
    ;
    // Cut by less than a step.
    lemma_quotient_is_near(value, step);
    lemma_product_is_near(count, step);
    lemma_fundamental_div_mod(k, u);
    let n = steps.whole() as int;
    assert(n == k / u);
    assert(w == n * u);
    assert(w <= k < w + u) by (nonlinear_arith)
        requires
            k == u * (k / u) + k % u,
            0 <= k % u < u,
            w == (k / u) * u,
    ;
    let ks = k * s;
    let ws = w * s;
    let vu = v * u;
    let cu = c * u;
    let us = u * s;
    assert(ws <= ks <= ws + us) by (nonlinear_arith)
        requires
            w <= k <= w + u,
            ks == k * s,
            ws == w * s,
            us == u * s,
            s > 0,
    ;
    assert(ws >= 0 && vu >= 0) by (nonlinear_arith)
        requires
            ws == w * s,
            vu == v * u,
            w >= 0,
            s > 0,
            v >= 0,
            u > 0,
    ;
    lemma_both_sides(f, ks - vu);
    lemma_both_sides(f, cu - ws);
    assert(size(v) == v && size(ws) == ws);
    assert(ks <= 2 * vu + s) by (nonlinear_arith)
        requires
            f * (ks - vu) <= vu + f * s,
            f == 0x20_0000_0000_0000,
            vu >= 0,
            s > 0,
    ;
    let gap = v - s - c;
    assert(f * (gap * u) <= 3 * vu + (f + 1) * s + f * u) by {
        assert(gap * u == vu - us - cu) by (nonlinear_arith)
            requires
                gap == v - s - c,
                vu == v * u,
                us == u * s,
                cu == c * u,
        ;
        let gu = gap * u;
        assert(gu <= (vu - ks) + (ws - cu));
        assert(f * gu <= f * (vu - ks) + f * (ws - cu)) by (nonlinear_arith)
            requires
                gu <= (vu - ks) + (ws - cu),
                f > 0,
        ;
        assert(f * (vu - ks) == -(f * (ks - vu)) && f * (ws - cu) == -(f * (cu - ws))) by (nonlinear_arith);
        assert((f + 1) * s == f * s + s) by (nonlinear_arith);
    }
    assert((f + 1) * s <= s * u) by (nonlinear_arith)
        requires
            f + 1 <= u,
            s > 0,
    ;
    assert(f + 1 <= f * f) by (nonlinear_arith)
        requires
            f == 0x20_0000_0000_0000,
    ;
    assert(f * gap <= 3 * v + s + f) by (nonlinear_arith)
        requires
            f * (gap * u) <= 3 * vu + s * u + f * u,
            vu == v * u,
            u > 0,
    ;
    // Whole steps.
    let ns = n * s;
    assert(ws == ns * u) by (nonlinear_arith)
        requires
            ws == w * s,
            w == n * u,
            ns == n * s,
    ;
    assert(ns >= 0) by (nonlinear_arith)
        requires
            ns == n * s,
            n >= 0,
            s > 0,
    ;
    let off = c - ns;
    assert(size(cu - ws) == size(off) * u) by (nonlinear_arith)
        requires
            cu == c * u,
            ws == ns * u,
            off == c - ns,
            u > 0,
            size(off) == (if off < 0 {
                -off
            } else {
                off
            }),
            size(cu - ws) == (if cu - ws < 0 {
                -(cu - ws)
            } else {
                cu - ws
            }),
    ;
    assert(f * size(off) <= ns + f) by (nonlinear_arith)
        requires
            f * (size(off) * u) <= ns * u + f * u,
            u > 0,
    ;
    assert(is_steps(cut, step, n));
}

/// A number lies between its size and the opposite of it, also after multiplying.
pub proof fn lemma_both_sides(f: int, x: int)
    requires
        f > 0,
    ensures
        -(f * size(x)) <= f * x <= f * size(x),
{
    assert(-(f * size(x)) <= f * x <= f * size(x)) by (nonlinear_arith)
        requires
            f > 0,
            size(x) == (if x < 0 {
                -x
            } else {
                x
            }),
    ;
}

/// A quantity that is worked out from an amount at a price is worth that amount: at
/// most, and less by a step at most. The amount may itself be rounded.
pub proof fn lemma_quantity_is_worth_the_amount(amount: Double, exact: int, price: Double, step: Double)
    requires
        amount.finite(),
        !amount.negative(),
        exact >= 0,
        fine() * size(amount.value() - exact) <= exact,
        price.finite(),
        positive(price),
        step.finite(),
        positive(step),
        floored(amount.div_spec(price), step).finite(),
    ensures
        worth_up_to_a_step(floored(amount.div_spec(price), step), price, exact, step),
        is_whole_steps(floored(amount.div_spec(price), step), step),
        !floored(amount.div_spec(price), step).negative(),
{
    let value = amount.div_spec(price);
    let cut = floored(value, step);
    let f = fine();
    let u = one();
    lemma_one_is_fine();
    lemma_quotient_sign(amount, price);
    lemma_units_increase(0, price.magnitude());
    lemma_units_increase(0, step.magnitude());
    assert(!value.nan() && !value.negative());
    assert(value.finite()) by {
        if value.infinite() {
            assert(value.div_spec(step).infinite());
            assert(value.div_spec(step).floor_spec().infinite());
            assert(cut.infinite());
        }
    }
    lemma_cut_is_less_than_a_step(value, step);
    lemma_quotient_is_near(amount, price);
    let d = amount.value();
    let p = price.value();
    let v = value.value();
    let c = cut.value();
    let s = step.value();
    let du = d * u;
    let au = exact * u;
    let vp = v * p;
    let cp = c * p;
    let sp = s * p;
    assert(d <= 2 * exact);
    assert(du >= 0 && au >= 0 && du <= 2 * au && vp >= 0 && sp > 0) by (nonlinear_arith)
        requires
            du == d * u,
            au == exact * u,
            vp == v * p,
            sp == s * p,
            0 <= d <= 2 * exact,
            v >= 0,
            p > 0,
            s > 0,
            u > 0,
    ;
    lemma_both_sides(f, vp - du);
    assert(size(d) == d);
    assert(vp <= 2 * du + p) by (nonlinear_arith)
        requires
            f * (vp - du) <= du + f * p,
            f == 0x20_0000_0000_0000,
            du >= 0,
            p > 0,
    ;
    let off = d - exact;
    lemma_both_sides(f, off);
    assert(f * (du - au) <= au && f * (au - du) <= au) by (nonlinear_arith)
        requires
            f * off <= exact,
            -(f * off) <= exact,
            off == d - exact,
            du == d * u,
            au == exact * u,
            u > 0,
    ;
    assert(f * (cp - vp) <= 2 * vp + f * p) by (nonlinear_arith)
        requires
            f * (c - v) <= 2 * v + f,
            cp == c * p,
            vp == v * p,
            p > 0,
    ;
    assert(f * (vp - sp - cp) <= 3 * vp + sp + f * p) by (nonlinear_arith)
        requires
            f * (v - s - c) <= 3 * v + s + f,
            cp == c * p,
            vp == v * p,
            sp == s * p,
            p > 0,
    ;
    assert(f * (cp - au) == f * (cp - vp) + f * (vp - du) + f * (du - au)) by (nonlinear_arith);
    assert(f * (au - cp - sp) == f * (vp - sp - cp) - f * (vp - du) + f * (au - du)) by (nonlinear_arith);
    assert(3 * p <= f * p) by (nonlinear_arith)
        requires
            f == 0x20_0000_0000_0000,
            p > 0,
    ;
}

/// The difference of two sums, without its sign, is off by its rounding.
pub proof fn lemma_difference_is_rounded(a: Double, b: Double)
    requires
        a.finite(),
        b.finite(),
        a.sub_spec(b).finite(),
    ensures
        ({
            let d = a.sub_spec(b).abs_spec();
            &&& d.finite()
            &&& !d.negative()
            &&& fine() * size(d.value() - size(a.value() - b.value())) <= size(a.value() - b.value())
        }),
{
    lemma_difference_is_near(a, b);
    lemma_neg_turns(b);
    lemma_sub_tells_the_larger(a, b);
    lemma_order_is_numeric(a, b);
    lemma_order_is_numeric(b, a);
    let d = a.sub_spec(b);
    assert(units(0) == 0);
    if a.value() > b.value() {
        assert(!d.negative());
    } else if a.value() < b.value() {
        assert(d.negative());
    }
}

/// Whether a price and a step are numbers to reckon with.
pub open spec fn reckons(price: Double, step: Double) -> bool {
    price.finite() && positive(price) && step.finite() && positive(step)
}

/// The order that evens out an opening is for the side that was filled less: at the
/// quote it is worth what that side is behind by, and no more. Where none is sent
/// the sides are apart by less than a step is worth.
pub proof fn lemma_supplement_evens_out_an_opening(run: GuardRun, q: Opportunity, order: Option<OrderPlan>)
    requires
        run.supplements(q, order),
        guard_total(run.unmatched_long@).finite(),
        guard_total(run.unmatched_short@).finite(),
        guard_total(run.unmatched_long@).sub_spec(guard_total(run.unmatched_short@)).finite(),
        reckons(q.short.bid, run.opportunity.short.qty_step),
        reckons(q.long.ask, run.opportunity.long.qty_step),
    ensures
        ({
            let long = guard_total(run.unmatched_long@).value();
            let short = guard_total(run.unmatched_short@).value();
            match order {
                Some(plan) => if short < long {
                    &&& plan.side@ == "Sell"@
                    &&& plan.exchange@ == q.short.exchange@
                    &&& plan.market@ == q.short.market@
                    &&& plan.symbol@ == q.short.symbol@
                    &&& plan.quantity.finite() ==> worth_up_to_a_step(
                        plan.quantity,
                        q.short.bid,
                        long - short,
                        run.opportunity.short.qty_step,
                    ) && is_whole_steps(plan.quantity, run.opportunity.short.qty_step)
                    &&& plan.limit_price is None
                    &&& !plan.reduce_only
                } else {
                    &&& plan.side@ == "Buy"@
                    &&& plan.exchange@ == q.long.exchange@
                    &&& plan.market@ == q.long.market@
                    &&& plan.symbol@ == q.long.symbol@
                    &&& plan.quantity.finite() ==> worth_up_to_a_step(
                        plan.quantity,
                        q.long.ask,
                        short - long,
                        run.opportunity.long.qty_step,
                    ) && is_whole_steps(plan.quantity, run.opportunity.long.qty_step)
                    &&& plan.limit_price is None
                    &&& !plan.reduce_only
                },
                None => if short < long {
                    worth_up_to_a_step(
                        Double { bits: ZERO },
                        q.short.bid,
                        long - short,
                        run.opportunity.short.qty_step,
                    )
                } else {
                    worth_up_to_a_step(
                        Double { bits: ZERO },
                        q.long.ask,
                        short - long,
                        run.opportunity.long.qty_step,
                    )
                },
            }
        }),
{
    let long = guard_total(run.unmatched_long@);
    let short = guard_total(run.unmatched_short@);
    lemma_supplement(
        long,
        short,
        if short.lt_spec(long) {
            q.short.bid
        } else {
            q.long.ask
        },
        if short.lt_spec(long) {
            run.opportunity.short.qty_step
        } else {
            run.opportunity.long.qty_step
        },
    );
    lemma_order_is_numeric(short, long);
}

/// What evens out any two sums is worth what they are apart by.
pub proof fn lemma_supplement(long: Double, short: Double, price: Double, step: Double)
    requires
        long.finite(),
        short.finite(),
        long.sub_spec(short).finite(),
        reckons(price, step),
    ensures
        ({
            let quantity = floored(long.sub_spec(short).abs_spec().div_spec(price), step);
            let apart = size(long.value() - short.value());
            &&& quantity.finite() ==> worth_up_to_a_step(quantity, price, apart, step) && is_whole_steps(quantity, step)
            &&& quantity.le_spec(Double { bits: ZERO }) ==> worth_up_to_a_step(
                Double { bits: ZERO },
                price,
                apart,
                step,
            )
        }),
{
    let zero = Double { bits: ZERO };
    let d = long.sub_spec(short).abs_spec();
    let quantity = floored(d.div_spec(price), step);
    lemma_difference_is_rounded(long, short);
    lemma_quotient_sign(d, price);
    if quantity.finite() {
        lemma_quantity_is_worth_the_amount(d, size(long.value() - short.value()), price, step);
        if quantity.le_spec(zero) {
            assert(units(0) == 0);
            assert(quantity.value() == 0);
        }
    } else if quantity.le_spec(zero) {
        lemma_quotient_sign(d.div_spec(price), step);
        assert(false);
    }
}

/// The order that evens out a closing is for the side that was closed less: at the
/// quote it is worth what that side is behind by, and no more, and it only reduces.
/// Where none is sent the sides are apart by less than a step is worth.
pub proof fn lemma_supplement_evens_out_a_closing(run: NoLossRun, order: Option<OrderPlan>, bid: Double, ask: Double)
    requires
        run.supplements(order),
        run.quotes == Some((bid, ask)),
        close_total(run.unmatched_long@).finite(),
        close_total(run.unmatched_short@).finite(),
        close_total(run.unmatched_long@).sub_spec(close_total(run.unmatched_short@)).finite(),
        reckons(ask, run.short_leg.qty_step),
        reckons(bid, run.long_leg.qty_step),
    ensures
        ({
            let long = close_total(run.unmatched_long@).value();
            let short = close_total(run.unmatched_short@).value();
            match order {
                Some(plan) => if short < long {
                    &&& plan.side@ == "Buy"@
                    &&& plan.exchange@ == run.short_leg.exchange@
                    &&& plan.symbol@ == run.short_leg.symbol@
                    &&& plan.quantity.finite() ==> worth_up_to_a_step(
                        plan.quantity,
                        ask,
                        long - short,
                        run.short_leg.qty_step,
                    ) && is_whole_steps(plan.quantity, run.short_leg.qty_step)
                    &&& plan.limit_price is None
                    &&& plan.reduce_only
                } else {
                    &&& plan.side@ == "Sell"@
                    &&& plan.exchange@ == run.long_leg.exchange@
                    &&& plan.symbol@ == run.long_leg.symbol@
                    &&& plan.quantity.finite() ==> worth_up_to_a_step(
                        plan.quantity,
                        bid,
                        short - long,
                        run.long_leg.qty_step,
                    ) && is_whole_steps(plan.quantity, run.long_leg.qty_step)
                    &&& plan.limit_price is None
                    &&& plan.reduce_only
                },
                None => if short < long {
                    worth_up_to_a_step(Double { bits: ZERO }, ask, long - short, run.short_leg.qty_step)
                } else {
                    worth_up_to_a_step(Double { bits: ZERO }, bid, short - long, run.long_leg.qty_step)
                },
            }
        }),
{
    let long = close_total(run.unmatched_long@);
    let short = close_total(run.unmatched_short@);
    lemma_supplement(
        long,
        short,
        if short.lt_spec(long) {
            ask
        } else {
            bid
        },
        if short.lt_spec(long) {
            run.short_leg.qty_step
        } else {
            run.long_leg.qty_step
        },
    );
    lemma_order_is_numeric(short, long);
}

} // verus!
