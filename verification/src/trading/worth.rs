//! What holds of the worth of legs and positions: who gains by what, and how much.

use crate::market::changes::lemma_share_times;
use crate::models::{Opportunity, OpenTradeRequest, OrderExecution, Position, PositionLeg, PositionQuote};
use crate::num::about::{
    about, fine, lemma_about_itself, lemma_about_loosens, lemma_about_product, lemma_about_quotient,
    lemma_about_same_sum, lemma_about_sum, lemma_difference_is_near, lemma_gap_over, lemma_gap_times, lemma_one_is_fine,
    lemma_product_is_near, lemma_quotient_is_near, lemma_sum_is_near, lemma_whole_number, one, sized,
};
use crate::num::constants::{EPSILON, HUNDRED, MARGIN_RESERVE, TEN, TEN_THOUSAND, ZERO};
use crate::num::double::{lemma_order_is_numeric, of_int, size, ONE_EXPONENT};
use crate::num::order::{
    lemma_neg_turns, lemma_product_monotone, lemma_product_sign, lemma_quotient_monotone, lemma_quotient_sign,
    lemma_sub_monotone, lemma_sub_tells_the_larger, lemma_sum_monotone, lemma_zero_is_neutral, positive,
};
use crate::num::rounding::{lemma_round_at_most, lemma_units_at, units, BINADE};
use crate::num::Double;
use crate::trading::amounts::{
    average_price, close_allowed, close_batch, held_apy, imbalance, leg_margin, margin_basis, mismatched, notional,
    open_allowed,
    quoted, reduced_notional, route_apy, top_notional, with_roi, without_loss,
};
use crate::trading::live::{margin_covered, reducible, required_margin};
use crate::trading::no_loss::{close_spread, long_ratio, short_ratio};
use crate::trading::reconcile::{slippage_bps, within_slippage};
use crate::trading::recovery::SpreadRecovery;
use crate::trading::sizing::lemma_difference_is_rounded;
use vstd::arithmetic::power2::{
    lemma2_to64, lemma2_to64_rest, lemma_pow2_adds, lemma_pow2_pos, lemma_pow2_strictly_increases, pow2,
};
use vstd::prelude::*;

verus! {

/// Whether a leg was entered for a price, in a quantity.
pub open spec fn is_entered(leg: PositionLeg) -> bool {
    leg.entry_price.finite() && leg.quantity.finite() && !leg.quantity.negative()
}

/// A leg gains by how much its price has moved its way: a long one where it has
/// risen above the entry, a short one where it has fallen below it.
pub proof fn lemma_leg_gains_when_the_price_moves_its_way(leg: PositionLeg, quote: PositionQuote)
    requires
        is_entered(leg),
        quote.reference_price.finite(),
    ensures
        ({
            let new = quoted(leg, Some(quote));
            let moved = if leg.side@ == "long"@ {
                quote.reference_price.value() - leg.entry_price.value()
            } else {
                leg.entry_price.value() - quote.reference_price.value()
            };
            &&& new.mark_price == quote.reference_price
            &&& new.quantity == leg.quantity && new.entry_price == leg.entry_price && new.side == leg.side
            &&& !new.unrealized_pnl.nan() ==> {
                &&& moved >= 0 ==> (Double { bits: ZERO }).le_spec(new.unrealized_pnl)
                &&& moved <= 0 ==> new.unrealized_pnl.le_spec(Double { bits: ZERO })
            }
            &&& new.unrealized_pnl.finite() ==> fine() * size(
                new.unrealized_pnl.value() * one() - moved * leg.quantity.value(),
            ) <= 3 * size(moved * leg.quantity.value()) + fine() * one()
        }),
{
    let new = quoted(leg, Some(quote));
    let (a, b) = if leg.side@ == "long"@ {
        (quote.reference_price, leg.entry_price)
    } else {
        (leg.entry_price, quote.reference_price)
    };
    let g = a.sub_spec(b);
    lemma_neg_turns(b);
    assert(!g.nan());
    lemma_sub_tells_the_larger(a, b);
    lemma_order_is_numeric(a, b);
    lemma_order_is_numeric(b, a);
    if !new.unrealized_pnl.nan() {
        lemma_product_sign(g, leg.quantity);
    }
    if new.unrealized_pnl.finite() {
        assert(g.finite()) by {
            if g.infinite() && leg.quantity.zero() {
                assert(new.unrealized_pnl.nan());
            }
        }
        lemma_gap_times(a, b, leg.quantity);
    }
}

/// Where a long and a short leg were entered at one price in one quantity, what the
/// one gains the other loses, whatever the price.
pub proof fn lemma_a_hedge_neither_gains_nor_loses(long: PositionLeg, short: PositionLeg, quote: PositionQuote)
    requires
        is_entered(long),
        quote.reference_price.finite(),
        long.side@ == "long"@,
        short.side@ != "long"@,
        short.entry_price == long.entry_price,
        short.quantity == long.quantity,
    ensures
        quoted(short, Some(quote)).unrealized_pnl.nan() == quoted(long, Some(quote)).unrealized_pnl.nan(),
        !quoted(long, Some(quote)).unrealized_pnl.nan() ==> quoted(short, Some(quote)).unrealized_pnl.place()
            == -quoted(long, Some(quote)).unrealized_pnl.place(),
{
    let p = quote.reference_price;
    let e = long.entry_price;
    lemma_neg_turns(p);
    lemma_neg_turns(e);
    let a = p.sub_spec(e);
    let b = e.sub_spec(p);
    assert(a.magnitude() == b.magnitude());
    assert(a.magnitude() > 0 ==> a.negative() != b.negative());
    if a.magnitude() == 0 {
        let q = long.quantity;
        lemma_product_sign(a, q);
        lemma_product_sign(b, q);
        assert(a.mul_spec(q).zero() && b.mul_spec(q).zero());
    }
}

/// What a position has earned is what is not settled of it and its funding; its
/// return is that on its margin, and lies on the same side of zero.
pub proof fn lemma_return_is_the_profit_on_the_margin(position: Position)
    requires
        position.unrealized_pnl.finite(),
        position.funding_earned.finite(),
    ensures
        ({
            let new = with_roi(position);
            let zero = Double { bits: ZERO };
            &&& new.current_pnl_usdt.finite() ==> fine() * size(
                new.current_pnl_usdt.value() - (position.unrealized_pnl.value() + position.funding_earned.value()),
            ) <= size(position.unrealized_pnl.value() + position.funding_earned.value())
            &&& zero.le_spec(new.current_pnl_usdt) && !new.roi_basis_usdt.infinite() ==> zero.le_spec(new.current_roi)
            &&& new.current_pnl_usdt.le_spec(zero) && !new.roi_basis_usdt.infinite() ==> new.current_roi.le_spec(zero)
            &&& (Double { bits: EPSILON }).lt_spec(new.roi_basis_usdt) && new.roi_basis_usdt.finite()
                && new.current_pnl_usdt.finite() && new.current_roi.finite() ==> fine() * size(
                new.current_roi.value() * new.roi_basis_usdt.value() - new.current_pnl_usdt.value() * one(),
            ) <= size(new.current_pnl_usdt.value()) * one() + fine() * new.roi_basis_usdt.value()
            &&& new.long == position.long && new.short == position.short && new.unrealized_pnl
                == position.unrealized_pnl && new.funding_earned == position.funding_earned
        }),
{
    let new = with_roi(position);
    let pnl = new.current_pnl_usdt;
    let basis = new.roi_basis_usdt;
    let zero = Double { bits: ZERO };
    if pnl.finite() {
        lemma_sum_is_near(position.unrealized_pnl, position.funding_earned);
    }
    if (Double { bits: EPSILON }).lt_spec(basis) {
        assert(positive(basis));
        if basis.finite() {
            lemma_quotient_sign(pnl, basis);
            if pnl.finite() && new.current_roi.finite() {
                lemma_quotient_is_near(pnl, basis);
            }
        }
    }
}

/// Of two positions of which nothing but the gains differ, the one that gained more
/// has earned at least as much, and at no smaller a return.
pub proof fn lemma_return_grows_with_the_gains(p: Position, q: Position)
    requires
        q == (Position { unrealized_pnl: q.unrealized_pnl, funding_earned: q.funding_earned, ..p }),
        p.unrealized_pnl.le_spec(q.unrealized_pnl),
        p.funding_earned.le_spec(q.funding_earned),
        !with_roi(p).current_pnl_usdt.nan(),
        !with_roi(q).current_pnl_usdt.nan(),
        with_roi(p).roi_basis_usdt.finite(),
    ensures
        with_roi(p).current_pnl_usdt.le_spec(with_roi(q).current_pnl_usdt),
        with_roi(p).current_roi.le_spec(with_roi(q).current_roi),
{
    lemma_sum_monotone(p.unrealized_pnl, q.unrealized_pnl, p.funding_earned, q.funding_earned);
    let basis = with_roi(p).roi_basis_usdt;
    if (Double { bits: EPSILON }).lt_spec(basis) {
        lemma_quotient_monotone(with_roi(p).current_pnl_usdt, with_roi(q).current_pnl_usdt, basis);
    }
}

/// Whether a leg is of an ordinary size.
pub open spec fn is_ordinary(leg: PositionLeg) -> bool {
    sized(leg.quantity, 200) && sized(leg.entry_price, 200) && sized(leg.mark_price, 200)
}

/// The leverage that a leg is reckoned with: one at least.
pub open spec fn effective_leverage(leg: PositionLeg) -> int {
    if leg.leverage < 1 {
        1
    } else {
        leg.leverage as int
    }
}

/// The margin of a position is what each leg was entered for, over its leverage.
pub proof fn lemma_margin_is_what_was_entered_for_over_the_leverage(long: PositionLeg, short: PositionLeg)
    requires
        is_ordinary(long),
        is_ordinary(short),
    ensures
        ({
            let x = effective_leverage(long);
            let y = effective_leverage(short);
            about(
                margin_basis(long, short),
                (long.quantity.value() * long.entry_price.value() * y + short.quantity.value()
                    * short.entry_price.value() * x) * (one() * one() * one()),
                one() * one() * one() * one() * (x * y),
                14,
            )
        }),
{
    lemma_one_margin(long);
    lemma_one_margin(short);
    let u = one();
    lemma_pow2_pos(ONE_EXPONENT as nat);
    let x = effective_leverage(long);
    let y = effective_leverage(short);
    let a = long.quantity.value() * long.entry_price.value() * u;
    let b = short.quantity.value() * short.entry_price.value() * u;
    let d = u * (x * u);
    let e = u * (y * u);
    lemma_about_sum(leg_margin(long), leg_margin(short), a, d, b, e, 6, 6, 432, 432);
    let p = long.quantity.value() * long.entry_price.value();
    let q = short.quantity.value() * short.entry_price.value();
    let w = u * u * u;
    lemma_factors(p, u, y);
    lemma_factors(q, u, x);
    assert((p * y) * w + (q * x) * w == (p * y + q * x) * w) by (nonlinear_arith);
    assert(d * e == u * u * u * u * (x * y)) by {
        let v = u * u;
        assert(d == v * x) by (nonlinear_arith)
            requires
                d == u * (x * u),
                v == u * u,
        ;
        assert(e == v * y) by (nonlinear_arith)
            requires
                e == u * (y * u),
                v == u * u,
        ;
        assert((v * x) * (v * y) == (v * v) * (x * y)) by (nonlinear_arith);
        assert(v * v == u * u * u * u) by (nonlinear_arith)
            requires
                v == u * u,
        ;
    }
}

proof fn lemma_factors(p: int, u: int, y: int)
    ensures
        (p * u) * (u * (y * u)) == (p * y) * (u * u * u),
{
    let v = u * u;
    assert(u * (y * u) == y * v) by (nonlinear_arith)
        requires
            v == u * u,
    ;
    assert((p * u) * (y * v) == (p * y) * (v * u)) by (nonlinear_arith);
}

proof fn lemma_one_margin(leg: PositionLeg)
    requires
        is_ordinary(leg),
    ensures
        about(
            leg_margin(leg),
            leg.quantity.value() * leg.entry_price.value() * one(),
            one() * (effective_leverage(leg) * one()),
            6,
        ),
        sized(leg_margin(leg), 432),
{
    let u = one();
    lemma_pow2_pos(ONE_EXPONENT as nat);
    let x = effective_leverage(leg);
    lemma_whole_number(x);
    lemma_about_itself(leg.quantity);
    lemma_about_itself(leg.entry_price);
    let n = leg.quantity.value() * leg.entry_price.value();
    lemma_about_product(leg.quantity, leg.entry_price, leg.quantity.value(), 1, leg.entry_price.value(), 1, 0, 0, 200, 200);
    assert(1 * 1 * u == u) by (nonlinear_arith);
    lemma_about_quotient(leg.quantity.mul_spec(leg.entry_price), of_int(x), n, u, x * u, 1, 2, 0, 400, 32);
    assert(n * 1 * u == n * u) by (nonlinear_arith);
}

/// The price of two fills taken together is what both cost over both quantities.
pub proof fn lemma_average_price_is_the_cost_over_the_quantity(p1: Double, q1: Double, p2: Double, q2: Double)
    requires
        sized(p1, 200),
        sized(q1, 200),
        sized(p2, 200),
        sized(q2, 200),
        positive(q1) || positive(q2),
    ensures
        about(
            average_price(p1, q1, p2, q2),
            (p1.value() * q1.value() + p2.value() * q2.value()) * one(),
            one() * (q1.value() + q2.value()),
            12,
        ),
{
    let u = one();
    lemma_pow2_pos(ONE_EXPONENT as nat);
    lemma_about_itself(p1);
    lemma_about_itself(q1);
    lemma_about_itself(p2);
    lemma_about_itself(q2);
    lemma_about_product(p1, q1, p1.value(), 1, q1.value(), 1, 0, 0, 200, 200);
    lemma_about_product(p2, q2, p2.value(), 1, q2.value(), 1, 0, 0, 200, 200);
    assert(1 * 1 * u == u) by (nonlinear_arith);
    let a = p1.value() * q1.value();
    let b = p2.value() * q2.value();
    lemma_about_same_sum(p1.mul_spec(q1), p2.mul_spec(q2), a, b, u, 2, 2, 400);
    lemma_about_same_sum(q1, q2, q1.value(), q2.value(), 1, 0, 0, 200);
    let t = q1.add_spec(q2);
    lemma_order_is_numeric(Double { bits: ZERO }, q1);
    lemma_order_is_numeric(Double { bits: ZERO }, q2);
    lemma_order_is_numeric(Double { bits: ZERO }, t);
    assert(units(0) == 0);
    let s = q1.value() + q2.value();
    assert(t.value() > 0) by (nonlinear_arith)
        requires
            (fine() - 2) * s <= fine() * (t.value() * 1),
            s > 0,
            fine() == 0x20_0000_0000_0000,
    ;
    lemma_about_quotient(p1.mul_spec(q1).add_spec(p2.mul_spec(q2)), t, a + b, u, s, 1, 6, 2, 401, 201);
    assert((a + b) * 1 * u == (a + b) * u) by (nonlinear_arith);
}

/// What a leg has shrunk by is worth that much at the price; a leg that has grown
/// has shrunk by nothing.
pub proof fn lemma_reduction_is_what_is_gone(original: Double, remaining: Double, price: Double)
    requires
        original.finite(),
        remaining.finite(),
        original.sub_spec(remaining).finite(),
        price.finite(),
        !price.negative(),
        reduced_notional(original, remaining, price).finite(),
    ensures
        ({
            let r = reduced_notional(original, remaining, price);
            let gone = original.value() - remaining.value();
            &&& gone <= 0 ==> r.zero()
            &&& gone >= 0 ==> fine() * size(r.value() * one() - gone * price.value()) <= 3 * (gone * price.value())
                + fine() * one()
            &&& (Double { bits: ZERO }).le_spec(r)
        }),
{
    let zero = Double { bits: ZERO };
    let d = original.sub_spec(remaining);
    lemma_neg_turns(remaining);
    lemma_sub_tells_the_larger(original, remaining);
    lemma_order_is_numeric(original, remaining);
    lemma_order_is_numeric(remaining, original);
    let m = d.max_spec(zero);
    lemma_product_sign(m, price);
    let gone = original.value() - remaining.value();
    let r = reduced_notional(original, remaining, price);
    lemma_one_is_fine();
    assert(units(0) == 0);
    if gone > 0 {
        assert(m == d);
        lemma_gap_times(original, remaining, price);
        assert(gone * price.value() >= 0) by (nonlinear_arith)
            requires
                gone > 0,
                price.value() >= 0,
        ;
    } else if gone == 0 {
        assert(r.value() == 0);
        assert(0 * one() == 0 && 0 * price.value() == 0) by (nonlinear_arith);
    }
}

/// What the top of the book takes is what both sides of it can take: no more than
/// either, and as much as one of them.
pub proof fn lemma_top_of_the_book_fills_both_legs(opportunity: Opportunity)
    requires
        sized(opportunity.long.ask, 200),
        sized(opportunity.long.ask_quantity, 200),
        sized(opportunity.short.bid, 200),
        sized(opportunity.short.bid_quantity, 200),
    ensures
        ({
            let top = top_notional(opportunity);
            let long = opportunity.long.ask.value() * opportunity.long.ask_quantity.value();
            let short = opportunity.short.bid.value() * opportunity.short.bid_quantity.value();
            about(
                top,
                if short < long {
                    short
                } else {
                    long
                },
                one(),
                2,
            )
        }),
{
    let l = opportunity.long;
    let s = opportunity.short;
    let u = one();
    lemma_pow2_pos(ONE_EXPONENT as nat);
    lemma_about_itself(l.ask);
    lemma_about_itself(l.ask_quantity);
    lemma_about_itself(s.bid);
    lemma_about_itself(s.bid_quantity);
    lemma_about_product(l.ask, l.ask_quantity, l.ask.value(), 1, l.ask_quantity.value(), 1, 0, 0, 200, 200);
    lemma_about_product(s.bid, s.bid_quantity, s.bid.value(), 1, s.bid_quantity.value(), 1, 0, 0, 200, 200);
    assert(1 * 1 * u == u) by (nonlinear_arith);
    let x = l.ask.mul_spec(l.ask_quantity);
    let y = s.bid.mul_spec(s.bid_quantity);
    let top = top_notional(opportunity);
    let a = l.ask.value() * l.ask_quantity.value();
    let b = s.bid.value() * s.bid_quantity.value();
    assert(units(0) == 0);
    assert(top.value() == x.value() || top.value() == y.value());
    // The rounded products are in the order of the exact ones.
    let p = units(l.ask.magnitude()) * units(l.ask_quantity.magnitude());
    let q = units(s.bid.magnitude()) * units(s.bid_quantity.magnitude());
    assert(p == a && q == b);
    if a <= b {
        crate::num::rounding::lemma_round_monotone(p, q, pow2(ONE_EXPONENT as nat));
    }
    if b <= a {
        crate::num::rounding::lemma_round_monotone(q, p, pow2(ONE_EXPONENT as nat));
    }
    lemma_order_is_numeric(y, x);
    lemma_order_is_numeric(x, y);
}

/// A route that is listed in its other direction only earns the opposite there.
pub proof fn lemma_the_other_direction_earns_the_opposite(
    position: Position,
    turned: Position,
    opportunities: Seq<Opportunity>,
)
    requires
        turned == (Position { long: position.short, short: position.long, ..position }),
        route_apy(opportunities, position.token@, position.short, position.long) is None,
    ensures
        held_apy(position, opportunities) is Some == held_apy(turned, opportunities) is Some,
        held_apy(position, opportunities) matches Some(apy) ==> {
            let other = held_apy(turned, opportunities)->0;
            &&& apy.nan() == other.nan()
            &&& !apy.nan() ==> other.place() == -apy.place()
            &&& route_apy(opportunities, position.token@, position.long, position.short) matches Some(listed)
            &&& listed.finite() && (Double { bits: ZERO }).le_spec(listed) && !apy.nan() ==> (Double {
                bits: ZERO,
            }).le_spec(apy)
            &&& listed.finite() && apy.finite() ==> fine() * size(
                apy.value() * one() - listed.value() * (Double { bits: HUNDRED }).value(),
            ) <= size(listed.value() * (Double { bits: HUNDRED }).value()) + fine() * one()
        },
{
    match route_apy(opportunities, position.token@, position.long, position.short) {
        Some(listed) => {
            let hundred = Double { bits: HUNDRED };
            lemma_neg_turns(listed);
            let apy = listed.mul_spec(hundred);
            if !apy.nan() {
                lemma_product_sign(listed, hundred);
            }
            if listed.finite() && apy.finite() {
                lemma_product_is_near(listed, hundred);
            }
        },
        None => {},
    }
}

/// A batch of an automatic close leaves what is tolerated, and none is made only
/// where the rest is at most one order, or less than ten USDT more than is
/// tolerated.
pub proof fn lemma_close_batch_leaves_the_tolerance(remaining: Double, order: Double, tolerance: Double)
    requires
        remaining.finite(),
        tolerance.finite(),
        order.finite(),
        remaining.sub_spec(tolerance).finite(),
    ensures
        close_batch(remaining, order, tolerance) matches Some(amount) ==> {
            &&& order.lt_spec(remaining)
            &&& amount.le_spec(order)
            &&& (Double { bits: TEN }).le_spec(amount)
            &&& amount.finite()
            &&& fine() * (amount.value() - (remaining.value() - tolerance.value())) <= size(
                remaining.value() - tolerance.value(),
            )
        },
        close_batch(remaining, order, tolerance) is None ==> {
            ||| remaining.le_spec(order)
            ||| order.lt_spec(Double { bits: TEN })
            ||| remaining.sub_spec(tolerance).lt_spec(Double { bits: TEN })
        },
{
    let zero = Double { bits: ZERO };
    let ten = Double { bits: TEN };
    let d = remaining.sub_spec(tolerance);
    let m = d.max_spec(zero);
    let amount = order.min_spec(m);
    lemma_difference_is_near(remaining, tolerance);
    if close_batch(remaining, order, tolerance) is Some {
        assert(amount.le_spec(m));
        assert(positive(ten));
        assert(m == d);
        lemma_order_is_numeric(amount, d);
        assert(fine() * (amount.value() - d.value()) <= 0) by (nonlinear_arith)
            requires
                amount.value() <= d.value(),
                fine() == 0x20_0000_0000_0000,
        ;
        let gap = remaining.value() - tolerance.value();
        assert(fine() * (amount.value() - gap) == fine() * (amount.value() - d.value()) + fine() * (d.value() - gap))
            by (nonlinear_arith);
        assert(fine() * (d.value() - gap) <= fine() * size(d.value() - gap)) by (nonlinear_arith)
            requires
                d.value() - gap <= size(d.value() - gap),
                fine() == 0x20_0000_0000_0000,
        ;
    }
}

/// A batch may be closed where it makes no loss on the whole, and where it makes
/// one it may only where that is less than two hundred-millionths.
pub proof fn lemma_no_batch_makes_a_loss(realized: Double, projected: Double, better: Double)
    requires
        realized.finite(),
        projected.finite(),
        !realized.add_spec(projected).nan(),
        !realized.add_spec(better).nan(),
        projected.le_spec(better),
    ensures
        realized.value() + projected.value() >= 0 ==> without_loss(realized, projected),
        without_loss(realized, projected) ==> without_loss(realized, better),
        without_loss(realized, projected) ==> realized.value() + projected.value() >= 0
            || (realized.value() + projected.value()) * 100_000_000 >= -2 * one(),
{
    let sum = realized.add_spec(projected);
    let floor = Double { bits: crate::num::constants::MINUS_HUNDRED_MILLIONTH };
    lemma_sum_monotone(realized, realized, projected, better);
    let k = realized.value() + projected.value();
    if k >= 0 {
        if k == 0 {
            assert(sum.zero());
        }
        assert((Double { bits: ZERO }).le_spec(sum));
    } else if without_loss(realized, projected) {
        lemma_sum_is_near_or_infinite(realized, projected);
        assert(sum.finite());
        lemma_order_is_numeric(floor, sum);
        lemma_units_at(
            (crate::num::constants::MINUS_HUNDRED_MILLIONTH - 0x8000_0000_0000_0000) as nat,
            995,
            ((crate::num::constants::MINUS_HUNDRED_MILLIONTH - 0x8000_0000_0000_0000) - 995 * BINADE) as nat,
        );
        lemma2_to64_rest();
        lemma2_to64();
        lemma_pow2_adds(79, 995);
        lemma_pow2_adds(52, 27);
        let e = pow2(995);
        lemma_pow2_pos(995);
        let g = ((crate::num::constants::MINUS_HUNDRED_MILLIONTH - 0x8000_0000_0000_0000) - 995 * BINADE) as nat;
        assert(floor.value() == -((g * e) as int));
        assert(one() == (0x10_0000_0000_0000 * 0x800_0000) * e);
        assert((g * e) * 100_000_000 <= one() + one() / 2) by (nonlinear_arith)
            requires
                one() == (0x10_0000_0000_0000 * 0x800_0000) * e,
                g == 6044629098073146,
                e > 0,
        ;
        let w = sum.value();
        assert(fine() * size(w - k) <= -k);
        assert(-k <= 0 - w + size(w - k));
        assert(-k * 100_000_000 <= 2 * one()) by (nonlinear_arith)
            requires
                fine() * size(w - k) <= -k,
                -k <= -w + size(w - k),
                -w * 100_000_000 <= one() + one() / 2,
                fine() == 0x20_0000_0000_0000,
                size(w - k) >= 0,
                one() >= 0x20_0000_0000_0000,
        ;
    }
}

proof fn lemma_sum_is_near_or_infinite(a: Double, b: Double)
    requires
        a.finite(),
        b.finite(),
    ensures
        a.add_spec(b).finite() ==> fine() * size(a.add_spec(b).value() - (a.value() + b.value())) <= size(
            a.value() + b.value(),
        ),
        one() >= fine(),
{
    lemma_one_is_fine();
    assert(fine() * fine() >= fine()) by (nonlinear_arith)
        requires
            fine() == 0x20_0000_0000_0000,
    ;
    if a.add_spec(b).finite() {
        lemma_sum_is_near(a, b);
    }
}

/// A guarded batch may be opened at the agreed spread or a better one, and never
/// at a spread that falls short of it by more than rounding; where it may be opened
/// at one spread it may at any better one.
pub proof fn lemma_openings_keep_to_the_agreed_spread(current: Double, better: Double, threshold: Double)
    requires
        current.finite(),
        better.finite(),
        threshold.finite(),
        current.le_spec(better),
        current.add_spec(Double { bits: EPSILON }).finite(),
        better.add_spec(Double { bits: EPSILON }).finite(),
    ensures
        threshold.le_spec(current) ==> open_allowed(current, threshold),
        open_allowed(current, threshold) ==> open_allowed(better, threshold),
        open_allowed(current, threshold) ==> fine() * (threshold.value() - (current.value() + (Double {
            bits: EPSILON,
        }).value())) <= size(current.value() + (Double { bits: EPSILON }).value()),
{
    let e = Double { bits: EPSILON };
    let zero = Double { bits: ZERO };
    lemma_sum_monotone(current, better, e, e);
    lemma_zero_is_neutral(current);
    lemma_sum_monotone(current, current, zero, e);
    lemma_allowed(current, e, threshold);
}

/// A guarded batch may be closed at the agreed spread or a lower one, and never at
/// one that exceeds it by more than a trillionth; where it may be closed at one
/// spread it may at any lower one.
pub proof fn lemma_closings_keep_to_the_agreed_spread(current: Double, lower: Double, maximum: Double)
    requires
        current.finite(),
        lower.finite(),
        maximum.finite(),
        lower.le_spec(current),
        maximum.add_spec(Double { bits: crate::num::constants::TRILLIONTH }).finite(),
    ensures
        current.le_spec(maximum) ==> close_allowed(current, maximum),
        close_allowed(current, maximum) ==> close_allowed(lower, maximum),
        close_allowed(current, maximum) ==> fine() * (current.value() - (maximum.value() + (Double {
            bits: crate::num::constants::TRILLIONTH,
        }).value())) <= size(maximum.value() + (Double { bits: crate::num::constants::TRILLIONTH }).value()),
{
    let t = Double { bits: crate::num::constants::TRILLIONTH };
    let zero = Double { bits: ZERO };
    lemma_zero_is_neutral(maximum);
    lemma_sum_monotone(maximum, maximum, zero, t);
    lemma_allowed(maximum, t, current);
}

proof fn lemma_allowed(base: Double, more: Double, x: Double)
    requires
        base.finite(),
        more.finite(),
        x.finite(),
        base.add_spec(more).finite(),
    ensures
        x.le_spec(base.add_spec(more)) ==> fine() * (x.value() - (base.value() + more.value())) <= size(
            base.value() + more.value(),
        ),
{
    let s = base.add_spec(more);
    lemma_sum_is_near(base, more);
    lemma_order_is_numeric(x, s);
    let k = base.value() + more.value();
    if x.le_spec(s) {
        assert(fine() * (x.value() - k) <= fine() * size(s.value() - k)) by (nonlinear_arith)
            requires
                x.value() - k <= size(s.value() - k),
                fine() == 0x20_0000_0000_0000,
        ;
    }
}

/// Two legs that differ by ten USDT at most count as even, and it does not matter
/// which of them is long.
pub proof fn lemma_small_differences_are_tolerated(long: Double, short: Double, ratio: Double)
    requires
        long.finite(),
        short.finite(),
    ensures
        size(long.value() - short.value()) <= 10 * one() ==> !mismatched(long, short, ratio),
        mismatched(long, short, ratio) ==> size(long.value() - short.value()) > 10 * one() && ratio.lt_spec(
            imbalance(long, short),
        ),
        size(long.value() - short.value()) > 11 * one() && ratio.lt_spec(imbalance(long, short)) && long.sub_spec(
            short,
        ).finite() ==> mismatched(long, short, ratio),
{
    let ten = Double { bits: TEN };
    lemma_units_at(TEN as nat, 1025, (TEN - 1025 * BINADE) as nat);
    lemma2_to64_rest();
    lemma2_to64();
    lemma_pow2_adds(49, 1025);
    let e = pow2(1025);
    let g = (TEN - 1025 * BINADE) as nat;
    assert(g == 10 * pow2(49));
    assert(g * e == 10 * (pow2(49) * e)) by (nonlinear_arith)
        requires
            g == 10 * pow2(49),
    ;
    assert(ten.value() == 10 * one());
    let k = long.value() - short.value();
    lemma_neg_turns(short);
    assert(units(0) == 0);
    if k != 0 && size(k) <= 10 * one() {
        assert(units(TEN as nat) * 1 == units(TEN as nat)) by (nonlinear_arith);
        lemma_round_at_most(size(k) as nat, 1, TEN as nat);
    }
    if size(k) > 11 * one() && long.sub_spec(short).finite() {
        let d = long.sub_spec(short).abs_spec();
        lemma_pow2_pos(ONE_EXPONENT as nat);
        lemma_difference_is_rounded(long, short);
        lemma_order_is_numeric(ten, d);
        assert(d.value() > 10 * one()) by (nonlinear_arith)
            requires
                fine() * size(d.value() - size(k)) <= size(k),
                size(k) - d.value() <= size(d.value() - size(k)),
                size(k) > 11 * one(),
                one() > 0,
                fine() == 0x20_0000_0000_0000,
        ;
    }
}

/// A reduction is less than either leg is worth, so that something of both is left.
pub proof fn lemma_a_reduction_leaves_both_legs(position: Position, amount: Double)
    requires
        reducible(position, amount),
        !notional(position.long).nan(),
        !notional(position.short).nan(),
        !amount.nan(),
    ensures
        amount.lt_spec(notional(position.long)),
        amount.lt_spec(notional(position.short)),
{
}

/// The free balance that a trade calls for is its size over the leverage and a
/// twentieth of that on top, on the exchange of either leg.
pub proof fn lemma_margin_has_a_reserve(
    opportunity: Opportunity,
    request: OpenTradeRequest,
    binance: Double,
    bybit: Double,
)
    requires
        sized(request.notional_usdt, 200),
        request.leverage >= 1,
        margin_covered(opportunity, request, binance, bybit),
        !binance.nan(),
        !bybit.nan(),
    ensures
        about(
            required_margin(request),
            request.notional_usdt.value() * (21 * one()) * one(),
            request.leverage * one() * 20 * one(),
            10,
        ),
        opportunity.long.exchange@ == "Binance"@ || opportunity.short.exchange@ == "Binance"@ ==> required_margin(
            request,
        ).le_spec(binance),
        opportunity.long.exchange@ == "Bybit"@ || opportunity.short.exchange@ == "Bybit"@ ==> required_margin(
            request,
        ).le_spec(bybit),
        opportunity.long.exchange@ == "Binance"@ || opportunity.long.exchange@ == "Bybit"@,
        opportunity.short.exchange@ == "Binance"@ || opportunity.short.exchange@ == "Bybit"@,
{
    let u = one();
    lemma_pow2_pos(ONE_EXPONENT as nat);
    let n = request.leverage as int;
    lemma_whole_number(n);
    lemma_about_itself(request.notional_usdt);
    let v = request.notional_usdt.value();
    lemma_about_quotient(request.notional_usdt, of_int(n), v, 1, n * u, 1, 0, 0, 200, 32);
    assert(v * 1 * u == v * u && 1 * (n * u) == n * u) by (nonlinear_arith);
    let r = Double { bits: MARGIN_RESERVE };
    lemma_reserve();
    lemma_about_product(request.notional_usdt.div_spec(of_int(n)), r, v * u, n * u, 21 * u, 20, 4, 1, 232, 1);
    assert(v * u * (21 * u) == v * (21 * u) * u && n * u * 20 * u == n * u * 20 * u) by (nonlinear_arith);
    lemma_about_loosens(required_margin(request), v * u * (21 * u), n * u * 20 * u, 7, 10);
    reveal_strlit("Binance");
    reveal_strlit("Bybit");
    assert("Binance"@.len() != "Bybit"@.len());
}

proof fn lemma_reserve()
    ensures
        about(Double { bits: MARGIN_RESERVE }, 21 * one(), 20, 1),
        sized(Double { bits: MARGIN_RESERVE }, 1),
{
    let r = Double { bits: MARGIN_RESERVE };
    let g = (MARGIN_RESERVE - 1022 * BINADE) as nat;
    lemma_units_at(MARGIN_RESERVE as nat, 1022, g);
    lemma2_to64_rest();
    lemma_pow2_adds(52, 1022);
    lemma_pow2_adds(53, 1022);
    lemma_pow2_strictly_increases(1073, 1074);
    let e = pow2(1022);
    lemma_pow2_pos(1022);
    assert(g == 0x10_cccc_cccc_cccd);
    assert(r.value() == g * e);
    assert(BINADE * e <= g * e <= (2 * BINADE) * e) by (nonlinear_arith)
        requires
            BINADE <= g <= 2 * BINADE,
    ;
    let t = 21 * one();
    assert(t == (21 * 0x10_0000_0000_0000) * e) by (nonlinear_arith)
        requires
            t == 21 * (0x10_0000_0000_0000 * e),
    ;
    assert(fine() * ((g * e) * 20) <= (fine() + 1) * t && (fine() - 1) * t <= fine() * ((g * e) * 20))
        by (nonlinear_arith)
        requires
            t == (21 * 0x10_0000_0000_0000) * e,
            g == 0x10_cccc_cccc_cccd,
            fine() == 0x20_0000_0000_0000,
            e > 0,
    ;
}

/// A closed long leg has gained where it was sold above its entry, a short one where
/// it was bought back below it, as a share of the price.
pub proof fn lemma_closing_gains(price: Double, entry: Double)
    requires
        price.finite(),
        positive(price),
        entry.finite(),
        !price.sub_spec(entry).infinite(),
    ensures
        ({
            let zero = Double { bits: ZERO };
            let long = long_ratio(price, entry);
            let short = short_ratio(price, entry);
            &&& entry.le_spec(price) ==> zero.le_spec(long) && short.le_spec(zero)
            &&& price.le_spec(entry) ==> long.le_spec(zero) && zero.le_spec(short)
            &&& short.place() == -long.place()
            &&& long.finite() ==> fine() * size(
                long.value() * price.value() - (price.value() - entry.value()) * one(),
            ) <= 3 * (size(price.value() - entry.value()) * one()) + fine() * price.value()
            &&& short.finite() ==> fine() * size(
                short.value() * price.value() - (entry.value() - price.value()) * one(),
            ) <= 3 * (size(entry.value() - price.value()) * one()) + fine() * price.value()
        }),
{
    let a = price.sub_spec(entry);
    let b = entry.sub_spec(price);
    lemma_neg_turns(price);
    lemma_neg_turns(entry);
    assert(!a.nan() && !b.nan());
    lemma_sub_tells_the_larger(price, entry);
    lemma_sub_tells_the_larger(entry, price);
    lemma_quotient_sign(a, price);
    lemma_quotient_sign(b, price);
    assert(a.magnitude() == b.magnitude());
    if a.magnitude() > 0 {
        assert(a.negative() != b.negative());
    }
    if long_ratio(price, entry).finite() {
        lemma_gap_over(price, entry, price);
    }
    if short_ratio(price, entry).finite() {
        lemma_gap_over(entry, price, price);
    }
}

/// The spread at which a position is closed is what the short leg costs to buy back
/// above what the long leg sells for, as a share of that.
pub proof fn lemma_closing_spread(long_bid: Double, short_ask: Double)
    requires
        long_bid.finite(),
        (Double { bits: EPSILON }).le_spec(long_bid),
        short_ask.finite(),
    ensures
        ({
            let zero = Double { bits: ZERO };
            let spread = close_spread(long_bid, short_ask);
            &&& long_bid.le_spec(short_ask) ==> zero.le_spec(spread)
            &&& short_ask.le_spec(long_bid) ==> spread.le_spec(zero)
            &&& spread.finite() ==> fine() * size(
                spread.value() * long_bid.value() - (short_ask.value() - long_bid.value()) * one(),
            ) <= 3 * (size(short_ask.value() - long_bid.value()) * one()) + fine() * long_bid.value()
        }),
{
    let g = short_ask.sub_spec(long_bid);
    lemma_neg_turns(long_bid);
    assert(!g.nan());
    assert(long_bid.max_spec(Double { bits: EPSILON }) == long_bid);
    lemma_sub_tells_the_larger(short_ask, long_bid);
    lemma_quotient_sign(g, long_bid);
    if close_spread(long_bid, short_ask).finite() {
        lemma_gap_over(short_ask, long_bid, long_bid);
    }
}

/// Ten thousand is worth ten thousand times as many units as one.
proof fn lemma_ten_thousand()
    ensures
        (Double { bits: TEN_THOUSAND }).value() == 10_000 * one(),
        (Double { bits: TEN_THOUSAND }).finite(),
{
    let g = (TEN_THOUSAND - 1035 * BINADE) as nat;
    lemma_units_at(TEN_THOUSAND as nat, 1035, g);
    lemma2_to64_rest();
    lemma2_to64();
    lemma_pow2_adds(39, 1035);
    let e = pow2(1035);
    assert(g == 10_000 * pow2(39));
    assert(g * e == 10_000 * (pow2(39) * e)) by (nonlinear_arith)
        requires
            g == 10_000 * pow2(39),
    ;
}

/// Slippage is by how much an order was filled worse than expected: a purchase above
/// the expected price, a sale below it. One that was filled no worse has none, and
/// is never refused.
pub proof fn lemma_slippage_is_what_was_lost(order: OrderExecution, expected: Double, is_buy: bool, limit: u32)
    requires
        expected.finite(),
        positive(expected),
        order.average_price.finite(),
        positive(order.average_price),
        positive(order.executed_quantity),
    ensures
        ({
            let lost = if is_buy {
                order.average_price.value() - expected.value()
            } else {
                expected.value() - order.average_price.value()
            };
            let bps = slippage_bps(order, expected, is_buy);
            &&& lost <= 0 ==> bps.zero() && within_slippage(order, expected, is_buy, limit)
            &&& !bps.nan() ==> (Double { bits: ZERO }).le_spec(bps)
            &&& lost >= 0 && bps.finite() ==> fine() * size(
                bps.value() * expected.value() - 10_000 * (lost * one()),
            ) <= 50_000 * (lost * one()) + 10_002 * (fine() * expected.value())
        }),
{
    let zero = Double { bits: ZERO };
    let (a, b) = if is_buy {
        (order.average_price, expected)
    } else {
        (expected, order.average_price)
    };
    let g = a.sub_spec(b);
    lemma_neg_turns(b);
    assert(!g.nan());
    lemma_sub_tells_the_larger(a, b);
    lemma_order_is_numeric(a, b);
    lemma_order_is_numeric(b, a);
    lemma_quotient_sign(g, expected);
    let m = g.div_spec(expected).max_spec(zero);
    let t = Double { bits: TEN_THOUSAND };
    assert(!m.nan());
    assert(zero.le_spec(m));
    let bps = m.mul_spec(t);
    if !bps.nan() {
        lemma_product_sign(m, t);
    }
    lemma_ten_thousand();
    lemma_pow2_pos(ONE_EXPONENT as nat);
    if a.value() >= b.value() && bps.finite() {
        let lost = a.value() - b.value();
        if a.value() > b.value() {
            assert(positive(g));
            assert(zero.le_spec(g.div_spec(expected)));
            assert(m == g.div_spec(expected) || m.zero());
            if m == g.div_spec(expected) {
                lemma_share_times(a, b, expected, t, 10_000);
            }
        } else {
            lemma_order_is_numeric(zero, expected);
            assert(units(0) == 0);
            let c = expected.value();
            assert(0 * c == 0 && 0 * one() == 0 && fine() * 0 == 0 && fine() * c >= 0) by (nonlinear_arith)
                requires
                    c >= 0,
                    fine() == 0x20_0000_0000_0000,
            ;
            assert(m.zero());
            lemma_product_sign(m, t);
            assert(bps.value() == 0);
        }
    }
    if a.value() <= b.value() {
        assert(m.zero());
        lemma_product_sign(m, t);
        if limit > 0 {
            lemma_whole_number(limit as int);
        }
    }
}

/// Of two fills of one order at one expected price the worse one has at least the
/// slippage of the other, and is refused where the other is.
pub proof fn lemma_slippage_grows_with_the_loss(
    order: OrderExecution,
    worse: OrderExecution,
    expected: Double,
    is_buy: bool,
    limit: u32,
)
    requires
        expected.finite(),
        positive(expected),
        order.average_price.finite(),
        worse.average_price.finite(),
        positive(order.average_price),
        positive(worse.average_price),
        positive(order.executed_quantity),
        positive(worse.executed_quantity),
        is_buy ==> order.average_price.le_spec(worse.average_price),
        !is_buy ==> worse.average_price.le_spec(order.average_price),
    ensures
        slippage_bps(order, expected, is_buy).le_spec(slippage_bps(worse, expected, is_buy)),
        within_slippage(worse, expected, is_buy, limit) ==> within_slippage(order, expected, is_buy, limit),
{
    let zero = Double { bits: ZERO };
    let t = Double { bits: TEN_THOUSAND };
    let p = order.average_price;
    let q = worse.average_price;
    lemma_neg_turns(expected);
    lemma_neg_turns(p);
    lemma_neg_turns(q);
    let (a, b) = if is_buy {
        (p.sub_spec(expected), q.sub_spec(expected))
    } else {
        (expected.sub_spec(p), expected.sub_spec(q))
    };
    assert(!a.nan() && !b.nan());
    if is_buy {
        lemma_sub_monotone(p, q, expected, expected);
    } else {
        lemma_sub_monotone(expected, expected, p, q);
    }
    lemma_quotient_monotone(a, b, expected);
    lemma_quotient_sign(a, expected);
    lemma_quotient_sign(b, expected);
    let x = a.div_spec(expected).max_spec(zero);
    let y = b.div_spec(expected).max_spec(zero);
    assert(x.le_spec(y));
    lemma_product_monotone(x, y, t);
}

/// A missed spread is what the fills fell short of the agreed one: nothing where
/// they reached it, and the more the less they brought.
pub proof fn lemma_missed_spread_is_owed(
    recovery: SpreadRecovery,
    threshold: Double,
    completed: Double,
    edge: Double,
    more: Double,
)
    requires
        threshold.finite(),
        completed.finite(),
        edge.finite(),
        more.finite(),
        edge.le_spec(more),
        threshold.mul_spec(completed).finite(),
    ensures
        ({
            let owed = threshold.mul_spec(completed);
            let debt = recovery.after_open(threshold, completed, edge).debt_usdt;
            &&& (Double { bits: ZERO }).le_spec(debt)
            &&& owed.le_spec(edge) ==> recovery.after_open(threshold, completed, edge) == SpreadRecovery::none()
            &&& recovery.after_open(threshold, completed, more).debt_usdt.le_spec(debt)
            &&& positive(debt) && debt.finite() ==> fine() * size(debt.value() - (owed.value() - edge.value())) <= size(
                owed.value() - edge.value(),
            )
            &&& fine() * size(owed.value() * one() - threshold.value() * completed.value()) <= size(
                threshold.value() * completed.value(),
            ) + fine() * one()
        }),
{
    let owed = threshold.mul_spec(completed);
    lemma_product_is_near(threshold, completed);
    lemma_debt(recovery, owed, edge, owed, more);
}

/// A closing that cost more than the agreed spread is to be made up for: by nothing
/// where it did not, and by the more the more it cost.
pub proof fn lemma_exceeded_spread_is_owed(
    recovery: SpreadRecovery,
    threshold: Double,
    completed: Double,
    spread: Double,
    less: Double,
)
    requires
        threshold.finite(),
        completed.finite(),
        spread.finite(),
        less.finite(),
        less.le_spec(spread),
        threshold.mul_spec(completed).finite(),
    ensures
        ({
            let agreed = threshold.mul_spec(completed);
            let debt = recovery.after_close(threshold, completed, spread).debt_usdt;
            &&& (Double { bits: ZERO }).le_spec(debt)
            &&& spread.le_spec(agreed) ==> recovery.after_close(threshold, completed, spread) == SpreadRecovery::none()
            &&& recovery.after_close(threshold, completed, less).debt_usdt.le_spec(debt)
            &&& positive(debt) && debt.finite() ==> fine() * size(debt.value() - (spread.value() - agreed.value()))
                <= size(spread.value() - agreed.value())
        }),
{
    let agreed = threshold.mul_spec(completed);
    lemma_debt(recovery, spread, agreed, less, agreed);
}

proof fn lemma_debt(recovery: SpreadRecovery, a: Double, b: Double, c: Double, d: Double)
    requires
        a.finite(),
        b.finite(),
        c.finite(),
        d.finite(),
        c.le_spec(a),
        b.le_spec(d),
    ensures
        ({
            let zero = Double { bits: ZERO };
            let debt = recovery.with_debt(a.sub_spec(b).max_spec(zero)).debt_usdt;
            let other = recovery.with_debt(c.sub_spec(d).max_spec(zero)).debt_usdt;
            &&& zero.le_spec(debt)
            &&& a.le_spec(b) ==> recovery.with_debt(a.sub_spec(b).max_spec(zero)) == SpreadRecovery::none()
            &&& other.le_spec(debt)
            &&& positive(debt) && debt.finite() ==> fine() * size(debt.value() - (a.value() - b.value())) <= size(
                a.value() - b.value(),
            )
        }),
{
    let zero = Double { bits: ZERO };
    let x = a.sub_spec(b);
    let y = c.sub_spec(d);
    lemma_neg_turns(b);
    lemma_neg_turns(d);
    assert(!x.nan() && !y.nan());
    lemma_sub_tells_the_larger(a, b);
    lemma_sub_tells_the_larger(c, d);
    lemma_sub_monotone(c, a, d, b);
    if x.finite() {
        lemma_difference_is_near(a, b);
    }
}

/// A debt is made up for in equal parts: each of the batches over which it is spread
/// has to earn on its notional a share that comes to the debt in all. It raises the
/// spread that an opening has to reach, and lowers the one of a closing.
pub proof fn lemma_installments_come_to_the_debt(
    recovery: SpreadRecovery,
    next_notional: Double,
    available_batches: u32,
)
    requires
        sized(recovery.debt_usdt, 200),
        sized(next_notional, 200),
    ensures
        ({
            let part = recovery.installment(next_notional, available_batches);
            let zero = Double { bits: ZERO };
            let n = if recovery.batches_remaining < available_batches {
                recovery.batches_remaining
            } else {
                available_batches
            };
            &&& zero.le_spec(part)
            &&& recovery.debt_usdt.zero() ==> part == zero
            &&& (Double { bits: EPSILON }).lt_spec(recovery.debt_usdt) && (Double { bits: EPSILON }).lt_spec(
                next_notional,
            ) && n > 0 ==> about(
                part,
                recovery.debt_usdt.value() * one() * one(),
                next_notional.value() * (n * one()),
                6,
            )
        }),
{
    let n = if recovery.batches_remaining < available_batches {
        recovery.batches_remaining
    } else {
        available_batches
    };
    let e = Double { bits: EPSILON };
    if e.lt_spec(recovery.debt_usdt) && e.lt_spec(next_notional) && n > 0 {
        let u = one();
        lemma_pow2_pos(ONE_EXPONENT as nat);
        lemma_whole_number(n as int);
        lemma_about_itself(recovery.debt_usdt);
        lemma_about_itself(next_notional);
        let w = of_int(n as int);
        let v = next_notional.value();
        lemma_about_product(next_notional, w, v, 1, n * u, 1, 0, 0, 200, 32);
        let t = next_notional.mul_spec(w);
        lemma_order_is_numeric(Double { bits: ZERO }, next_notional);
        lemma_order_is_numeric(Double { bits: ZERO }, t);
        assert(units(0) == 0);
        assert(v * (n * u) > 0) by (nonlinear_arith)
            requires
                v > 0,
                n > 0,
                u > 0,
        ;
        assert(1 * 1 * u == u) by (nonlinear_arith);
        let tv = t.value();
        let vn = v * (n * u);
        assert(tv > 0) by (nonlinear_arith)
            requires
                (fine() - 2) * vn <= fine() * (tv * u),
                vn > 0,
                u > 0,
                fine() == 0x20_0000_0000_0000,
        ;
        let d = recovery.debt_usdt.value();
        lemma_about_quotient(recovery.debt_usdt, t, d, 1, vn, u, 0, 2, 200, 232);
        assert(d * u * u == d * u * u && 1 * vn == vn) by (nonlinear_arith);
        lemma_quotient_sign(recovery.debt_usdt, t);
    }
}

/// A debt raises the spread that an opening has to reach, and lowers the one that a
/// closing may cost.
pub proof fn lemma_installments_tighten(
    recovery: SpreadRecovery,
    threshold: Double,
    next_notional: Double,
    available_batches: u32,
)
    requires
        threshold.finite(),
        sized(recovery.debt_usdt, 200),
        sized(next_notional, 200),
    ensures
        ({
            let part = recovery.installment(next_notional, available_batches);
            &&& !threshold.add_spec(part).nan() ==> threshold.le_spec(threshold.add_spec(part))
            &&& !threshold.sub_spec(part).nan() ==> threshold.sub_spec(part).le_spec(threshold)
        }),
{
    let zero = Double { bits: ZERO };
    let part = recovery.installment(next_notional, available_batches);
    lemma_installments_come_to_the_debt(recovery, next_notional, available_batches);
    lemma_zero_is_neutral(threshold);
    if !threshold.add_spec(part).nan() {
        lemma_sum_monotone(threshold, threshold, zero, part);
    }
    if !threshold.sub_spec(part).nan() {
        lemma_sub_monotone(threshold, threshold, part, zero);
    }
}

/// The return of a position is reckoned on what both of its legs were entered for, over
/// their leverage.
pub proof fn lemma_return_is_on_the_margin_of_both_legs(position: Position)
    requires
        is_ordinary(position.long),
        is_ordinary(position.short),
    ensures
        ({
            let x = effective_leverage(position.long);
            let y = effective_leverage(position.short);
            about(
                with_roi(position).roi_basis_usdt,
                (position.long.quantity.value() * position.long.entry_price.value() * y
                    + position.short.quantity.value() * position.short.entry_price.value() * x) * (one() * one()
                    * one()),
                one() * one() * one() * one() * (x * y),
                14,
            )
        }),
{
    lemma_margin_is_what_was_entered_for_over_the_leverage(position.long, position.short);
}

/// A debt that is new, or has grown, is made up for over ten batches. One that has not
/// grown keeps its schedule: with every batch there is one fewer to come, and one at
/// least.
pub proof fn lemma_debts_are_spread_over_ten_batches(
    recovery: SpreadRecovery,
    threshold: Double,
    completed: Double,
    edge: Double,
)
    requires
        !recovery.debt_usdt.nan(),
        !recovery.debt_usdt.negative(),
    ensures
        ({
            let epsilon = Double { bits: EPSILON };
            let opened = recovery.after_open(threshold, completed, edge);
            let closed = recovery.after_close(threshold, completed, edge);
            &&& is_spread(opened, recovery)
            &&& is_spread(closed, recovery)
        }),
{
    lemma_is_spread(recovery, threshold.mul_spec(completed).sub_spec(edge).max_spec(Double { bits: ZERO }));
    lemma_is_spread(recovery, edge.sub_spec(threshold.mul_spec(completed)).max_spec(Double { bits: ZERO }));
}

/// Whether a recovery goes on from another one.
pub open spec fn is_spread(new: SpreadRecovery, old: SpreadRecovery) -> bool {
    let epsilon = Double { bits: EPSILON };
    if !epsilon.lt_spec(new.debt_usdt) {
        new.batches_remaining == 0
    } else if !epsilon.lt_spec(old.debt_usdt) {
        new.batches_remaining == 10
    } else if new.debt_usdt.le_spec(old.debt_usdt) {
        new.batches_remaining == (if old.batches_remaining <= 2 {
            1
        } else {
            old.batches_remaining - 1
        })
    } else {
        new.batches_remaining == 10 || new.batches_remaining == (if old.batches_remaining <= 2 {
            1
        } else {
            old.batches_remaining - 1
        })
    }
}

proof fn lemma_is_spread(recovery: SpreadRecovery, updated: Double)
    requires
        !recovery.debt_usdt.nan(),
        !recovery.debt_usdt.negative(),
        !updated.nan(),
    ensures
        is_spread(recovery.with_debt(updated), recovery),
{
    let epsilon = Double { bits: EPSILON };
    let zero = Double { bits: ZERO };
    let d = recovery.debt_usdt;
    if updated.le_spec(d) {
        lemma_zero_is_neutral(d);
        assert(!d.add_spec(epsilon).nan());
        lemma_sum_monotone(d, d, zero, epsilon);
    }
}

} // verus!
