//! How much the orders of trades come to.

use crate::market::routes::lemma_constants;
use crate::models::{OpenTradeRequest, Opportunity, Position, PositionLeg};
use crate::num::about::{
    about, fine, lemma_about_itself, lemma_about_product, lemma_about_quotient, lemma_difference_is_near,
    lemma_one_is_fine, lemma_quotient_is_near, lemma_sum_is_near, one, sized,
};
use crate::num::constants::{EPSILON, FIFTY, HUNDRED, TWO, ZERO};
use crate::num::double::{lemma_order_is_numeric, size, ONE_EXPONENT};
use crate::num::order::{
    lemma_neg_turns, lemma_product_sign, lemma_quotient_sign, lemma_sub_monotone, lemma_sub_tells_the_larger,
    lemma_sum_monotone, lemma_zero_is_neutral, positive,
};
use crate::num::rounding::{lemma_units_at, units, BINADE};
use crate::num::Double;
use crate::trading::amounts::{floored, imbalance, notional, notional_or_zero, protective_quantity};
use crate::trading::fills::CloseUnmatchedFill;
use crate::trading::guard::{batches_left, GuardRun};
use crate::trading::live::{loan_covered, mismatch, OpenRun, ReduceRun};
use crate::trading::matching::lemma_two_fills_book_the_smaller;
use crate::trading::no_loss::{long_ratio, short_ratio, NoLossRun};
use crate::trading::paper::{bought, increased, scaled_down, sold};
use crate::trading::plan::OrderPlan;
use crate::trading::reconcile::{AlignRun, EvenRun};
use crate::trading::sizing::{
    lemma_both_sides, lemma_difference_is_rounded, lemma_quantity_is_worth_the_amount, lemma_supplement, reckons,
    worth_up_to_a_step,
};
use crate::trading::worth::lemma_installments_come_to_the_debt;
use crate::yields::lemma_size_scales;
use vstd::arithmetic::power2::{lemma2_to64, lemma2_to64_rest, lemma_pow2_adds, lemma_pow2_pos, pow2};
use vstd::prelude::*;

verus! {

/// What of an amount is not done yet, up to the size of one order.
pub open spec fn next_part(order: int, target: int, done: int) -> int {
    if target <= done {
        0
    } else if target - done < order {
        target - done
    } else {
        order
    }
}

/// Fifty is worth fifty times as many units as one, a hundred a hundred times.
pub proof fn lemma_order_sizes()
    ensures
        (Double { bits: FIFTY }).value() == 50 * one(),
        (Double { bits: HUNDRED }).value() == 100 * one(),
{
    let e = pow2(1027);
    lemma_pow2_pos(1027);
    lemma_units_at(FIFTY as nat, 1027, (FIFTY - 1027 * BINADE) as nat);
    lemma_units_at(HUNDRED as nat, 1028, (HUNDRED - 1028 * BINADE) as nat);
    lemma2_to64_rest();
    lemma2_to64();
    lemma_pow2_adds(47, 1027);
    lemma_pow2_adds(1, 1027);
    let g = (FIFTY - 1027 * BINADE) as nat;
    assert(g == 50 * pow2(47));
    assert(g * e == 50 * (pow2(47) * e)) by (nonlinear_arith)
        requires
            g == 50 * pow2(47),
    ;
    assert(g * (2 * e) == 100 * (pow2(47) * e)) by (nonlinear_arith)
        requires
            g == 50 * pow2(47),
    ;
}

/// What is not done yet, as it is reckoned.
proof fn lemma_next_part(order: Double, target: Double, done: Double)
    requires
        order.finite(),
        positive(order),
        target.finite(),
        !target.negative(),
        done.finite(),
        target.sub_spec(done).finite(),
    ensures
        ({
            let part = order.min_spec(target.sub_spec(done).max_spec(Double { bits: ZERO }));
            let exact = next_part(order.value(), target.value(), done.value());
            &&& part.finite()
            &&& !part.negative()
            &&& exact >= 0
            &&& fine() * size(part.value() - exact) <= exact
        }),
{
    let zero = Double { bits: ZERO };
    let d = target.sub_spec(done);
    let rest = d.max_spec(zero);
    let part = order.min_spec(rest);
    lemma_neg_turns(done);
    lemma_difference_is_near(target, done);
    lemma_sub_tells_the_larger(target, done);
    lemma_order_is_numeric(target, done);
    lemma_order_is_numeric(done, target);
    lemma_order_is_numeric(zero, order);
    lemma_order_is_numeric(order, rest);
    assert(units(0) == 0);
    let t = target.value() - done.value();
    let r = d.value();
    let c = order.value();
    let f = fine();
    if t > 0 {
        assert(rest == d);
        assert(!d.negative());
        let x = size(r - t);
        assert(f * x <= t);
        let p = part.value();
        let e = next_part(c, target.value(), done.value());
        assert(p == (if r < c {
            r
        } else {
            c
        }));
        assert(e == (if t < c {
            t
        } else {
            c
        }));
        assert(f * size(p - e) <= e) by {
            let y = size(p - e);
            if r < c && t < c {
            } else if r < c {
                assert(f * (c - r) <= c) by (nonlinear_arith)
                    requires
                        f * (t - r) <= t,
                        c <= t,
                        f == 0x20_0000_0000_0000,
                ;
            } else if t < c {
                assert(f * (c - t) <= t) by (nonlinear_arith)
                    requires
                        f * (r - t) <= t,
                        c <= r,
                        f == 0x20_0000_0000_0000,
                ;
            } else {
                assert(f * 0 == 0) by (nonlinear_arith);
            }
        }
    } else {
        assert(d.le_spec(zero));
        assert(rest.zero());
        assert(part.zero());
        assert(!part.negative());
        assert(f * 0 == 0) by (nonlinear_arith);
    }
}

/// An order of a guarded opening is for the next fifty USDT of what is not opened
/// yet, or for what is left of it: at the quote that it is sent at it is worth that,
/// and no more.
pub proof fn lemma_opening_orders_are_worth_the_next_part(
    run: GuardRun,
    q: Opportunity,
    long: Option<OrderPlan>,
    short: Option<OrderPlan>,
)
    requires
        run.sends(q, long, short),
        run.whole.notional_usdt.finite(),
        !run.whole.notional_usdt.negative(),
        run.completed.finite(),
        run.whole.notional_usdt.sub_spec(run.completed).finite(),
        reckons(q.long.ask, run.opportunity.long.qty_step),
        reckons(q.short.bid, run.opportunity.short.qty_step),
    ensures
        ({
            let part = next_part(50 * one(), run.whole.notional_usdt.value(), run.completed.value());
            &&& long matches Some(plan) ==> {
                &&& plan.side@ == "Buy"@
                &&& plan.exchange@ == q.long.exchange@
                &&& plan.symbol@ == q.long.symbol@
                &&& plan.limit_price == Some(q.long.ask)
                &&& !plan.reduce_only
                &&& plan.quantity.finite() ==> worth_up_to_a_step(
                    plan.quantity,
                    q.long.ask,
                    part,
                    run.opportunity.long.qty_step,
                )
            }
            &&& short matches Some(plan) ==> {
                &&& plan.side@ == "Sell"@
                &&& plan.exchange@ == q.short.exchange@
                &&& plan.symbol@ == q.short.symbol@
                &&& plan.limit_price == Some(q.short.bid)
                &&& !plan.reduce_only
                &&& plan.quantity.finite() ==> worth_up_to_a_step(
                    plan.quantity,
                    q.short.bid,
                    part,
                    run.opportunity.short.qty_step,
                )
            }
        }),
{
    lemma_order_sizes();
    lemma_next_part(Double { bits: FIFTY }, run.whole.notional_usdt, run.completed);
    let part = next_part(50 * one(), run.whole.notional_usdt.value(), run.completed.value());
    if long is Some && run.long_quantity(q).finite() {
        lemma_quantity_is_worth_the_amount(run.desired(), part, q.long.ask, run.opportunity.long.qty_step);
    }
    if short is Some && run.short_quantity(q).finite() {
        lemma_quantity_is_worth_the_amount(run.desired(), part, q.short.bid, run.opportunity.short.qty_step);
    }
}

/// Whether an order of a closing comes to a part: it takes no more than is held, is
/// worth no more than the part, and less by a step at most unless it takes all that
/// is held.
pub open spec fn closes(quantity: Double, held: Double, price: Double, part: int, step: Double) -> bool {
    &&& quantity.le_spec(held)
    &&& quantity.finite() ==> fine() * (quantity.value() * price.value() - part * one()) <= 15 * (part * one()) + 3
        * (fine() * price.value())
    &&& quantity.finite() && !quantity.eq_spec(held) ==> worth_up_to_a_step(quantity, price, part, step)
}

/// An order of a guarded closing is for the next fifty USDT of what is not closed
/// yet, or for what is left of it, and never for more than is held.
pub proof fn lemma_closing_orders_are_worth_the_next_part(
    run: NoLossRun,
    long: Option<OrderPlan>,
    short: Option<OrderPlan>,
    bid: Double,
    ask: Double,
)
    requires
        run.sends(long, short),
        run.quotes == Some((bid, ask)),
        run.target.finite(),
        !run.target.negative(),
        run.completed.finite(),
        run.target.sub_spec(run.completed).finite(),
        run.position.long.quantity.finite(),
        run.position.short.quantity.finite(),
        reckons(bid, run.long_leg.qty_step),
        reckons(ask, run.short_leg.qty_step),
        floored(run.desired().div_spec(bid), run.long_leg.qty_step).finite(),
        floored(run.desired().div_spec(ask), run.short_leg.qty_step).finite(),
    ensures
        ({
            let part = next_part(50 * one(), run.target.value(), run.completed.value());
            &&& long matches Some(plan) ==> {
                &&& plan.side@ == "Sell"@
                &&& plan.exchange@ == run.long_leg.exchange@
                &&& plan.limit_price == Some(bid)
                &&& plan.reduce_only
                &&& closes(plan.quantity, run.position.long.quantity, bid, part, run.long_leg.qty_step)
            }
            &&& short matches Some(plan) ==> {
                &&& plan.side@ == "Buy"@
                &&& plan.exchange@ == run.short_leg.exchange@
                &&& plan.limit_price == Some(ask)
                &&& plan.reduce_only
                &&& closes(plan.quantity, run.position.short.quantity, ask, part, run.short_leg.qty_step)
            }
        }),
{
    lemma_order_sizes();
    lemma_next_part(Double { bits: FIFTY }, run.target, run.completed);
    let part = next_part(50 * one(), run.target.value(), run.completed.value());
    if long is Some {
        lemma_closes(run.desired(), part, run.position.long.quantity, bid, run.long_leg.qty_step);
    }
    if short is Some {
        lemma_closes(run.desired(), part, run.position.short.quantity, ask, run.short_leg.qty_step);
    }
}

proof fn lemma_closes(amount: Double, part: int, held: Double, price: Double, step: Double)
    requires
        amount.finite(),
        !amount.negative(),
        part >= 0,
        fine() * size(amount.value() - part) <= part,
        held.finite(),
        reckons(price, step),
        floored(amount.div_spec(price), step).finite(),
    ensures
        closes(floored(amount.div_spec(price), step).min_spec(held), held, price, part, step),
{
    let cut = floored(amount.div_spec(price), step);
    let q = cut.min_spec(held);
    lemma_quantity_is_worth_the_amount(amount, part, price, step);
    lemma_order_is_numeric(q, cut);
    lemma_order_is_numeric(Double { bits: ZERO }, price);
    assert(units(0) == 0);
    let p = price.value();
    let f = fine();
    assert(q.value() <= cut.value());
    assert(f * (q.value() * p - part * one()) <= f * (cut.value() * p - part * one())) by (nonlinear_arith)
        requires
            q.value() <= cut.value(),
            p >= 0,
            f == 0x20_0000_0000_0000,
    ;
}

/// Whether a price is the one that a held leg is reckoned with: its mark, or the
/// other one where the leg has none.
pub open spec fn reckons_with(price: Double, state: Option<PositionLeg>, otherwise: Double) -> bool {
    if state is Some && positive(state->0.mark_price) {
        price == state->0.mark_price
    } else {
        price == otherwise
    }
}

/// A leg that is lifted is lifted by what it lacks: the order is worth the target less
/// what the leg is worth, and no more.
pub proof fn lemma_a_leg_is_lifted_by_what_it_lacks(run: AlignRun, state: Option<PositionLeg>, price: Double)
    requires
        reckons_with(
            price,
            state,
            if run.order_side@ == "Buy"@ {
                run.leg.ask
            } else {
                run.leg.bid
            },
        ),
        reckons(price, run.leg.qty_step),
        run.target.finite(),
        !run.target.negative(),
        notional_or_zero(state).finite(),
        run.target.sub_spec(notional_or_zero(state)).finite(),
        notional_or_zero(state).value() <= run.target.value(),
        run.missing_quantity(state).finite(),
    ensures
        worth_up_to_a_step(
            run.missing_quantity(state),
            price,
            run.target.value() - notional_or_zero(state).value(),
            run.leg.qty_step,
        ),
{
    let held = notional_or_zero(state);
    let d = run.target.sub_spec(held);
    lemma_neg_turns(held);
    lemma_difference_is_near(run.target, held);
    lemma_sub_tells_the_larger(run.target, held);
    lemma_order_is_numeric(held, run.target);
    lemma_order_is_numeric(run.target, held);
    assert(run.order_reference(state) == price);
    if run.target.value() == held.value() {
        assert(d.zero());
        assert(!d.negative());
    }
    lemma_quantity_is_worth_the_amount(d, run.target.value() - held.value(), price, run.leg.qty_step);
}

/// Of two uneven legs the larger one is cut, by what it is worth more than the other.
pub proof fn lemma_the_larger_leg_is_cut_to_the_other(
    run: EvenRun,
    long: Option<PositionLeg>,
    short: Option<PositionLeg>,
    price: Double,
)
    requires
        notional_or_zero(long).finite(),
        notional_or_zero(short).finite(),
        notional_or_zero(long).sub_spec(notional_or_zero(short)).finite(),
        run.excess_quantity(long, short).finite(),
        notional_or_zero(long).value() > notional_or_zero(short).value() ==> reckons_with(
            price,
            long,
            run.long_leg.mark,
        ) && reckons(price, run.long_leg.qty_step),
        notional_or_zero(long).value() <= notional_or_zero(short).value() ==> reckons_with(
            price,
            short,
            run.short_leg.mark,
        ) && reckons(price, run.short_leg.qty_step),
    ensures
        EvenRun::long_is_larger(long, short) == (notional_or_zero(long).value() > notional_or_zero(short).value()),
        worth_up_to_a_step(
            run.excess_quantity(long, short),
            price,
            size(notional_or_zero(long).value() - notional_or_zero(short).value()),
            if notional_or_zero(long).value() > notional_or_zero(short).value() {
                run.long_leg.qty_step
            } else {
                run.short_leg.qty_step
            },
        ),
{
    let a = notional_or_zero(long);
    let b = notional_or_zero(short);
    lemma_order_is_numeric(b, a);
    lemma_supplement(
        a,
        b,
        price,
        if a.value() > b.value() {
            run.long_leg.qty_step
        } else {
            run.short_leg.qty_step
        },
    );
}

/// A protective order takes a leg whole, where it is to be closed and small enough,
/// or is worth what is orphaned of it, up to a hundred USDT.
pub proof fn lemma_protective_orders_are_worth_the_orphaned_part(
    leg: PositionLeg,
    excess: Double,
    step: Double,
    close_entire_leg: bool,
)
    requires
        excess.finite(),
        !excess.negative(),
        reckons(leg.mark_price, step),
        notional(leg).finite(),
        protective_quantity(leg, excess, step, close_entire_leg).finite(),
    ensures
        ({
            let quantity = protective_quantity(leg, excess, step, close_entire_leg);
            if close_entire_leg && notional(leg).value() <= 100 * one() {
                quantity == leg.quantity
            } else {
                worth_up_to_a_step(
                    quantity,
                    leg.mark_price,
                    if excess.value() < 100 * one() {
                        excess.value()
                    } else {
                        100 * one()
                    },
                    step,
                )
            }
        }),
{
    let order = Double { bits: HUNDRED };
    lemma_order_sizes();
    lemma_order_is_numeric(notional(leg), order);
    lemma_order_is_numeric(order, excess);
    lemma_one_is_fine();
    assert(fine() * fine() >= 0) by (nonlinear_arith);
    if !(close_entire_leg && notional(leg).le_spec(order)) {
        let amount = order.min_spec(excess);
        assert(fine() * size(0) == 0) by (nonlinear_arith)
            requires
                size(0) == 0,
        ;
        lemma_quantity_is_worth_the_amount(amount, amount.value(), leg.mark_price, step);
    }
}

/// A simulated trade buys and sells what the request asks for, each leg at the side
/// of the book that it takes from.
pub proof fn lemma_paper_trades_are_worth_the_request(opportunity: Opportunity, request: OpenTradeRequest)
    requires
        request.notional_usdt.finite(),
        !request.notional_usdt.negative(),
        reckons(opportunity.long.ask, opportunity.long.qty_step),
        reckons(opportunity.short.bid, opportunity.short.qty_step),
    ensures
        bought(opportunity, request).finite() ==> worth_up_to_a_step(
            bought(opportunity, request),
            opportunity.long.ask,
            request.notional_usdt.value(),
            opportunity.long.qty_step,
        ),
        sold(opportunity, request).finite() ==> worth_up_to_a_step(
            sold(opportunity, request),
            opportunity.short.bid,
            request.notional_usdt.value(),
            opportunity.short.qty_step,
        ),
{
    lemma_worth_of_a_request(request.notional_usdt, opportunity.long.ask, opportunity.long.qty_step);
    lemma_worth_of_a_request(request.notional_usdt, opportunity.short.bid, opportunity.short.qty_step);
}

/// A quantity that is worked out from an amount as it stands.
pub proof fn lemma_worth_of_a_request(amount: Double, price: Double, step: Double)
    requires
        amount.finite(),
        !amount.negative(),
        reckons(price, step),
    ensures
        floored(amount.div_spec(price), step).finite() ==> worth_up_to_a_step(
            floored(amount.div_spec(price), step),
            price,
            amount.value(),
            step,
        ),
{
    assert(fine() * size(0) == 0) by (nonlinear_arith)
        requires
            size(0) == 0,
    ;
    if floored(amount.div_spec(price), step).finite() {
        lemma_quantity_is_worth_the_amount(amount, amount.value(), price, step);
    }
}

/// A part that is taken off a simulated position leaves each leg with its share of
/// what is left.
pub proof fn lemma_a_reduction_scales_both_legs(position: Position, amount: Double)
    requires
        sized(position.notional_usdt, 200),
        sized(amount, 200),
        sized(position.notional_usdt.sub_spec(amount), 200),
        sized(position.long.quantity, 200),
        sized(position.short.quantity, 200),
        positive(position.notional_usdt),
        amount.value() <= position.notional_usdt.value(),
    ensures
        ({
            let new = scaled_down(position, amount);
            let n = position.notional_usdt.value();
            let left = n - amount.value();
            &&& fine() * size(new.notional_usdt.value() - left) <= left
            &&& about(new.long.quantity, position.long.quantity.value() * (left * one()), n * one(), 8)
            &&& about(new.short.quantity, position.short.quantity.value() * (left * one()), n * one(), 8)
            &&& new.long.entry_price == position.long.entry_price && new.short.entry_price
                == position.short.entry_price
        }),
{
    let n = position.notional_usdt.value();
    let rest = position.notional_usdt.sub_spec(amount);
    let left = n - amount.value();
    let u = one();
    let f = fine();
    lemma_pow2_pos(ONE_EXPONENT as nat);
    lemma_difference_is_near(position.notional_usdt, amount);
    let r = rest.value();
    assert(about(rest, left, 1, 1)) by {
        lemma_both_sides(f, r - left);
        assert(f * (r - left) == f * (r * 1) - f * left && (f + 1) * left == f * left + left && (f - 1) * left == f
            * left - left) by (nonlinear_arith);
    }
    lemma_about_itself(position.notional_usdt);
    lemma_order_is_numeric(Double { bits: ZERO }, position.notional_usdt);
    assert(units(0) == 0);
    lemma_about_quotient(rest, position.notional_usdt, left, 1, n, 1, 1, 0, 200, 200);
    let ratio = rest.div_spec(position.notional_usdt);
    assert(left * 1 * u == left * u && 1 * n == n) by (nonlinear_arith);
    lemma_about_itself(position.long.quantity);
    lemma_about_itself(position.short.quantity);
    lemma_about_product(position.long.quantity, ratio, position.long.quantity.value(), 1, left * u, n, 0, 5, 200, 400);
    lemma_about_product(position.short.quantity, ratio, position.short.quantity.value(), 1, left * u, n, 0, 5, 200, 400);
    assert(1 * n * u == n * u) by (nonlinear_arith);
    crate::num::about::lemma_about_loosens(
        scaled_down(position, amount).long.quantity,
        position.long.quantity.value() * (left * u),
        n * u,
        7,
        8,
    );
    crate::num::about::lemma_about_loosens(
        scaled_down(position, amount).short.quantity,
        position.short.quantity.value() * (left * u),
        n * u,
        7,
        8,
    );
}

/// What a trade adds to a simulated position is added to both of its legs and to its
/// size.
pub proof fn lemma_an_increase_adds_to_both_legs(position: Position, opportunity: Opportunity, request: OpenTradeRequest)
    requires
        position.notional_usdt.finite(),
        request.notional_usdt.finite(),
        position.long.quantity.finite(),
        position.short.quantity.finite(),
        bought(opportunity, request).finite(),
        sold(opportunity, request).finite(),
    ensures
        ({
            let new = increased(position, opportunity, request);
            &&& new.notional_usdt.finite() ==> fine() * size(
                new.notional_usdt.value() - (position.notional_usdt.value() + request.notional_usdt.value()),
            ) <= size(position.notional_usdt.value() + request.notional_usdt.value())
            &&& new.long.quantity.finite() ==> fine() * size(
                new.long.quantity.value() - (position.long.quantity.value() + bought(opportunity, request).value()),
            ) <= size(position.long.quantity.value() + bought(opportunity, request).value())
            &&& new.short.quantity.finite() ==> fine() * size(
                new.short.quantity.value() - (position.short.quantity.value() + sold(opportunity, request).value()),
            ) <= size(position.short.quantity.value() + sold(opportunity, request).value())
            &&& new.id == position.id && new.token == position.token && new.leverage == position.leverage
        }),
{
    let new = increased(position, opportunity, request);
    if new.notional_usdt.finite() {
        lemma_sum_is_near(position.notional_usdt, request.notional_usdt);
    }
    if new.long.quantity.finite() {
        lemma_sum_is_near(position.long.quantity, bought(opportunity, request));
    }
    if new.short.quantity.finite() {
        lemma_sum_is_near(position.short.quantity, sold(opportunity, request));
    }
}

/// A debt makes the next batch harder: an opening has to reach at least the agreed
/// spread, a closing may cost at most the agreed one.
pub proof fn lemma_a_debt_tightens_the_spread(run: GuardRun, closing: NoLossRun, agreed: Double)
    requires
        run.threshold.finite(),
        agreed.finite(),
        sized(run.recovery.debt_usdt, 200),
        sized(closing.recovery.debt_usdt, 200),
        sized(run.desired(), 200),
        sized(closing.desired(), 200),
    ensures
        !run.effective().nan() ==> run.threshold.le_spec(run.effective()),
        !closing.effective(agreed).nan() ==> closing.effective(agreed).le_spec(agreed),
        run.recovery.debt_usdt.zero() ==> run.effective().eq_spec(run.threshold),
        closing.recovery.debt_usdt.zero() ==> closing.effective(agreed).eq_spec(agreed),
{
    let zero = Double { bits: ZERO };
    let a = run.recovery.installment(run.desired(), batches_left(run.remaining()));
    let b = closing.recovery.installment(closing.desired(), batches_left(closing.remaining()));
    lemma_installments_come_to_the_debt(run.recovery, run.desired(), batches_left(run.remaining()));
    lemma_installments_come_to_the_debt(closing.recovery, closing.desired(), batches_left(closing.remaining()));
    lemma_zero_is_neutral(run.threshold);
    lemma_zero_is_neutral(agreed);
    if !run.effective().nan() {
        lemma_sum_monotone(run.threshold, run.threshold, zero, a);
    }
    if !closing.effective(agreed).nan() {
        lemma_sub_monotone(agreed, agreed, b, zero);
    }
}

/// A loan covers a sale where what can be borrowed, and a step more, is worth it at the
/// bid, up to rounding, and does not where it is not.
pub proof fn lemma_a_loan_covers_what_is_sold(opportunity: Opportunity, request: OpenTradeRequest, most: Double)
    requires
        request.notional_usdt.finite(),
        !request.notional_usdt.negative(),
        most.finite(),
        !most.negative(),
        reckons(opportunity.short.bid, opportunity.short.qty_step),
        most.add_spec(opportunity.short.qty_step).finite(),
        request.notional_usdt.div_spec(opportunity.short.bid).finite(),
    ensures
        ({
            let bid = opportunity.short.bid.value();
            let wanted = request.notional_usdt.value() * one();
            let lent = (most.value() + opportunity.short.qty_step.value()) * bid;
            &&& loan_covered(opportunity, request, most) ==> fine() * (wanted - lent) <= lent + wanted + fine() * bid
            &&& !loan_covered(opportunity, request, most) ==> fine() * (lent - wanted) <= lent + wanted + fine() * bid
        }),
{
    let f = fine();
    let u = one();
    let price = opportunity.short.bid;
    let sum = most.add_spec(opportunity.short.qty_step);
    let need = request.notional_usdt.div_spec(price);
    lemma_sum_is_near(most, opportunity.short.qty_step);
    lemma_quotient_is_near(request.notional_usdt, price);
    lemma_order_is_numeric(sum, need);
    lemma_order_is_numeric(Double { bits: ZERO }, price);
    assert(units(0) == 0);
    let s = sum.value();
    let m = most.value() + opportunity.short.qty_step.value();
    let q = need.value();
    let b = price.value();
    let w = request.notional_usdt.value() * u;
    let sb = s * b;
    let mb = m * b;
    let qb = q * b;
    let x = s - m;
    lemma_both_sides(f, x);
    assert(f * (sb - mb) <= mb && f * (mb - sb) <= mb) by (nonlinear_arith)
        requires
            f * x <= m,
            -(f * x) <= m,
            x == s - m,
            b > 0,
            sb == s * b,
            mb == m * b,
    ;
    lemma_both_sides(f, qb - w);
    assert(f * (w - qb) == -(f * (qb - w))) by (nonlinear_arith);
    if loan_covered(opportunity, request, most) {
        assert(f * (qb - sb) <= 0) by (nonlinear_arith)
            requires
                q <= s,
                b > 0,
                f > 0,
                qb == q * b,
                sb == s * b,
        ;
        assert(f * (w - mb) == f * (w - qb) + f * (qb - sb) + f * (sb - mb)) by (nonlinear_arith);
    } else {
        assert(f * (sb - qb) <= 0) by (nonlinear_arith)
            requires
                s <= q,
                b > 0,
                f > 0,
                qb == q * b,
                sb == s * b,
        ;
        assert(f * (mb - w) == f * (mb - sb) + f * (sb - qb) + f * (qb - w)) by (nonlinear_arith);
    }
}

/// The profit that the next batch of a closing would bring, where no fill is open, is
/// what both legs would gain at the quotes: none is lost where both have moved their
/// way, and none gained where neither has.
pub proof fn lemma_the_next_batch_brings_what_both_legs_gain(run: NoLossRun, bid: Double, ask: Double)
    requires
        run.unmatched_long@.len() == 0,
        run.unmatched_short@.len() == 0,
        run.desired().finite(),
        positive(run.desired()),
        bid.finite(),
        ask.finite(),
        (Double { bits: EPSILON }).le_spec(bid),
        (Double { bits: EPSILON }).le_spec(ask),
        run.position.long.entry_price.finite(),
        run.position.short.entry_price.finite(),
        bid.sub_spec(run.position.long.entry_price).div_spec(bid).finite(),
        run.position.short.entry_price.sub_spec(ask).div_spec(ask).finite(),
        bid.sub_spec(run.position.long.entry_price).div_spec(bid).add_spec(
            run.position.short.entry_price.sub_spec(ask).div_spec(ask),
        ).finite(),
        !run.projected(bid, ask).nan(),
    ensures
        ({
            let zero = Double { bits: ZERO };
            let long = run.position.long.entry_price;
            let short = run.position.short.entry_price;
            &&& long.le_spec(bid) && ask.le_spec(short) ==> zero.le_spec(run.projected(bid, ask))
            &&& bid.le_spec(long) && short.le_spec(ask) ==> run.projected(bid, ask).le_spec(zero)
            &&& run.projected(bid, ask).eq_spec(
                run.desired().mul_spec(long_ratio(bid, long).add_spec(short_ratio(ask, short))),
            )
        }),
{
    let zero = Double { bits: ZERO };
    let long = run.position.long.entry_price;
    let short = run.position.short.entry_price;
    let l = CloseUnmatchedFill {
        notional_usdt: run.desired(),
        pnl_ratio: bid.sub_spec(long).div_spec(bid),
        price: bid,
    };
    let s = CloseUnmatchedFill {
        notional_usdt: run.desired(),
        pnl_ratio: short.sub_spec(ask).div_spec(ask),
        price: ask,
    };
    assert(bid.max_spec(Double { bits: EPSILON }) == bid);
    assert(ask.max_spec(Double { bits: EPSILON }) == ask);
    assert(run.unmatched_long@.push(l) =~= seq![l]);
    assert(run.unmatched_short@.push(s) =~= seq![s]);
    lemma_two_fills_book_the_smaller(l, s);
    lemma_neg_turns(long);
    lemma_neg_turns(ask);
    let a = bid.sub_spec(long);
    let b = short.sub_spec(ask);
    assert(!a.nan() && !b.nan());
    lemma_sub_tells_the_larger(bid, long);
    lemma_sub_tells_the_larger(short, ask);
    lemma_quotient_sign(a, bid);
    lemma_quotient_sign(b, ask);
    let x = a.div_spec(bid);
    let y = b.div_spec(ask);
    let r = x.add_spec(y);
    lemma_zero_is_neutral(zero);
    if zero.le_spec(x) && zero.le_spec(y) {
        lemma_sum_monotone(zero, x, zero, y);
    }
    if x.le_spec(zero) && y.le_spec(zero) {
        lemma_sum_monotone(x, zero, y, zero);
    }
    let d = run.desired();
    lemma_product_sign(d, r);
    if r.zero() {
        assert(d.mul_spec(r).zero());
    }
}

/// The size of a position that came of a trade is the mean of what its legs are worth.
pub proof fn lemma_size_is_the_mean_of_the_legs(
    run: OpenRun,
    reduction: ReduceRun,
    position: Position,
    long: PositionLeg,
    short: PositionLeg,
    now: i64,
)
    requires
        run.opened(position, long, short, now) || reduction.reduced(position, long, short),
        notional(long).finite(),
        notional(short).finite(),
        notional(long).add_spec(notional(short)).finite(),
        position.notional_usdt.finite(),
    ensures
        position.long == long && position.short == short,
        fine() * size(2 * position.notional_usdt.value() - (notional(long).value() + notional(short).value())) <= 3
            * size(notional(long).value() + notional(short).value()) + 2 * fine(),
{
    let two = Double { bits: TWO };
    let sum = notional(long).add_spec(notional(short));
    lemma_sum_is_near(notional(long), notional(short));
    lemma_constants();
    lemma_quotient_is_near(sum, two);
    let u = one();
    let f = fine();
    lemma_pow2_pos(ONE_EXPONENT as nat);
    let p = position.notional_usdt.value();
    let s = sum.value();
    let k = notional(long).value() + notional(short).value();
    let x = 2 * p - s;
    assert(p * (2 * u) - s * u == x * u && f * (2 * u) == (2 * f) * u) by (nonlinear_arith)
        requires
            x == 2 * p - s,
    ;
    lemma_size_scales(x, u);
    let sx = size(x);
    let ss = size(s);
    assert(f * sx <= ss + 2 * f) by (nonlinear_arith)
        requires
            f * (sx * u) <= ss * u + (2 * f) * u,
            u > 0,
    ;
    let y = size(s - k);
    assert(y <= size(k)) by (nonlinear_arith)
        requires
            f * y <= size(k),
            f == 0x20_0000_0000_0000,
            y >= 0,
    ;
    let z = size(2 * p - k);
    assert(f * z <= f * sx + f * y) by (nonlinear_arith)
        requires
            z <= sx + y,
            f == 0x20_0000_0000_0000,
    ;
}

/// What is left of a position has gained what its legs have.
pub proof fn lemma_what_is_left_has_gained_what_its_legs_have(
    run: ReduceRun,
    position: Position,
    long: PositionLeg,
    short: PositionLeg,
)
    requires
        run.reduced(position, long, short),
        long.unrealized_pnl.finite(),
        short.unrealized_pnl.finite(),
        position.unrealized_pnl.finite(),
    ensures
        fine() * size(
            position.unrealized_pnl.value() - (long.unrealized_pnl.value() + short.unrealized_pnl.value()),
        ) <= size(long.unrealized_pnl.value() + short.unrealized_pnl.value()),
        position.funding_earned == run.position.funding_earned,
        position.id == run.position.id && position.token == run.position.token,
{
    lemma_sum_is_near(long.unrealized_pnl, short.unrealized_pnl);
}

/// How far two legs are apart is their difference over the larger one.
pub proof fn lemma_imbalance_is_the_difference_over_the_larger(long: Double, short: Double)
    requires
        long.finite(),
        !long.negative(),
        short.finite(),
        !short.negative(),
        imbalance(long, short).finite(),
    ensures
        ({
            let larger = if long.value() < short.value() {
                short
            } else {
                long
            };
            let apart = size(long.value() - short.value()) * one();
            &&& imbalance(long, short).place() == imbalance(short, long).place()
            &&& (Double { bits: EPSILON }).lt_spec(larger) ==> fine() * size(
                imbalance(long, short).value() * larger.value() - apart,
            ) <= 3 * apart + fine() * larger.value()
        }),
{
    let larger = long.max_spec(short);
    let d = long.sub_spec(short).abs_spec();
    let e = short.sub_spec(long).abs_spec();
    lemma_neg_turns(short);
    lemma_neg_turns(long);
    lemma_order_is_numeric(long, short);
    lemma_order_is_numeric(short, long);
    assert(d.magnitude() == e.magnitude());
    assert(short.max_spec(long).magnitude() == larger.magnitude());
    if !larger.le_spec(Double { bits: EPSILON }) {
        assert(long.sub_spec(short).finite()) by {
            lemma_zero_is_neutral(long);
            lemma_zero_is_neutral(short);
            let zero = Double { bits: ZERO };
            lemma_sub_monotone(long, long, short, zero);
            lemma_sub_monotone(zero, long, short, short);
        }
        lemma_difference_is_rounded(long, short);
        lemma_quotient_is_near(d, larger);
        let f = fine();
        let u = one();
        lemma_pow2_pos(ONE_EXPONENT as nat);
        let k = size(long.value() - short.value());
        let dv = d.value();
        let c = larger.value();
        let q = imbalance(long, short).value();
        let ku = k * u;
        let du = dv * u;
        let qc = q * c;
        lemma_both_sides(f, dv - k);
        assert(f * (du - ku) <= ku && -(f * (du - ku)) <= ku) by (nonlinear_arith)
            requires
                f * (dv - k) <= k,
                -(f * (dv - k)) <= k,
                du == dv * u,
                ku == k * u,
                u > 0,
        ;
        assert(size(dv) * u == du);
        lemma_both_sides(f, qc - du);
        assert(du <= 2 * ku) by (nonlinear_arith)
            requires
                f * (du - ku) <= ku,
                f == 0x20_0000_0000_0000,
                ku >= 0,
        ;
        assert(f * (qc - ku) == f * (qc - du) + f * (du - ku)) by (nonlinear_arith);
        let z = qc - ku;
        assert(f * size(z) == f * z || f * size(z) == -(f * z)) by {
            if z < 0 {
                assert(f * (-z) == -(f * z)) by (nonlinear_arith);
            }
        }
    }
}

/// What the legs of a finished trade differ by is the difference of what they are worth.
pub proof fn lemma_mismatch_is_the_difference(long: Option<PositionLeg>, short: Option<PositionLeg>)
    requires
        notional_or_zero(long).finite(),
        notional_or_zero(short).finite(),
        notional_or_zero(long).sub_spec(notional_or_zero(short)).finite(),
    ensures
        ({
            let apart = size(notional_or_zero(long).value() - notional_or_zero(short).value());
            fine() * size(mismatch(long, short).value() - apart) <= apart
        }),
{
    lemma_difference_is_rounded(notional_or_zero(long), notional_or_zero(short));
}

/// A reduction has missed a leg where it has shrunk by less than the amount, and is
/// tolerated up to the tolerance.
pub proof fn lemma_a_reduction_is_by_the_amount(run: ReduceRun, shrunk: Double)
    requires
        run.amount.finite(),
        run.tolerance.finite(),
        shrunk.finite(),
        run.amount.sub_spec(run.tolerance).finite(),
    ensures
        ({
            let least = run.amount.value() - run.tolerance.value();
            &&& !run.missed(shrunk) ==> fine() * (least - shrunk.value()) <= size(least)
            &&& run.missed(shrunk) ==> fine() * (shrunk.value() - least) <= size(least)
        }),
{
    let d = run.amount.sub_spec(run.tolerance);
    let least = run.amount.value() - run.tolerance.value();
    let f = fine();
    lemma_difference_is_near(run.amount, run.tolerance);
    lemma_both_sides(f, d.value() - least);
    lemma_order_is_numeric(shrunk, d);
    if run.missed(shrunk) {
        assert(f * (shrunk.value() - least) <= f * (d.value() - least)) by (nonlinear_arith)
            requires
                shrunk.value() <= d.value(),
                f == 0x20_0000_0000_0000,
        ;
    } else {
        assert(f * (least - shrunk.value()) <= -(f * (d.value() - least))) by (nonlinear_arith)
            requires
                d.value() <= shrunk.value(),
                f == 0x20_0000_0000_0000,
        ;
    }
}

} // verus!
