//! Quantities, notionals and the thresholds that decisions are made by.

use crate::models::{Opportunity, Position, PositionLeg, PositionQuote};
use crate::num::constants::{
    EPSILON, HUNDRED, HUNDREDTH, MINUS_HUNDRED_MILLIONTH, ONE, TEN, TRILLION, TRILLIONTH, ZERO,
};
use crate::num::decimal::{fixed, fixed_text};
use crate::num::double::{lemma_floor_is_exact, lemma_order_is_numeric, lemma_sub_self, of_int, ONE_EXPONENT};
use crate::num::rounding::{
    lemma_next_adds_enough, lemma_round_at_most, lemma_round_is_near, lemma_units_at, lemma_units_increase, round,
    units, BINADE,
};
use crate::num::Double;
use crate::text::{contains, join3, lower, occurs, same, to_ascii_lowercase, trim_end_matches, without_suffixes};
use vstd::arithmetic::div_mod::lemma_fundamental_div_mod_converse;
use vstd::arithmetic::power2::{lemma2_to64_rest, lemma_pow2_adds, lemma_pow2_pos, lemma_pow2_strictly_increases, pow2};
use vstd::prelude::*;

verus! {

/// The size of one protective order.
pub const HEDGE_PROTECTION_ORDER_USDT: u64 = HUNDRED;

/// The difference between two legs that is never acted upon.
pub const HEDGE_PROTECTION_MINIMUM_DIFFERENCE_USDT: u64 = TEN;

/// The relative difference between two legs that is never acted upon.
pub const POSITION_RECONCILIATION_TOLERANCE_RATIO: u64 = HUNDREDTH;

/// How long after the hour the funding of that hour is looked up.
pub const FUNDING_REFRESH_DELAY_SECONDS: i64 = 120;

/// The largest whole number of steps that a value holds, as a value.
pub open spec fn floored(value: Double, step: Double) -> Double {
    if step.le_spec(Double { bits: ZERO }) {
        value
    } else {
        value.div_spec(step).floor_spec().mul_spec(step)
    }
}

pub fn floor_step(value: Double, step: Double) -> (r: Double)
    ensures
        r == floored(value, step),
{
    if step.le(Double { bits: ZERO }) {
        value
    } else {
        value.div(step).floor().mul(step)
    }
}

/// A quantity cut down to whole steps is covered by the value it was cut from,
/// unless the number of steps came out whole by rounding and their product
/// rounds above the value. Even then it is at most the next number above.
pub proof fn lemma_floored_is_covered(value: Double, step: Double)
    requires
        value.finite(),
        !value.negative(),
        step.finite(),
        !step.negative(),
        !step.zero(),
    ensures
        ({
            let steps = value.div_spec(step);
            let cut = floored(value, step);
            &&& cut.le_spec(value) <==> steps.finite() && (steps.fractional() || steps.mul_spec(step).le_spec(value))
            &&& steps.finite() ==> cut.place() <= value.place() + 1
        }),
{
    let steps = value.div_spec(step);
    let count = steps.floor_spec();
    let one = pow2(ONE_EXPONENT as nat);
    lemma_pow2_pos(ONE_EXPONENT as nat);
    let v = units(value.magnitude());
    let s = units(step.magnitude());
    lemma_units_increase(0, step.magnitude());
    if steps.finite() {
        lemma_floor_is_exact(steps);
        lemma_order_is_numeric(count, steps);
        let m = round(v * one, s);
        let q = units(m);
        let w = units(count.magnitude());
        let next = value.magnitude() + 1;
        lemma_next_adds_enough(value.magnitude());
        assert(w * s <= units(next) * one) by {
            if BINADE * s <= v * one {
                lemma_round_is_near(v * one, s);
                assert(w * s <= units(next) * one) by (nonlinear_arith)
                    requires
                        w <= q,
                        (q * s - v * one) * (2 * BINADE) <= v * one,
                        v * (2 * BINADE + 1) <= 2 * BINADE * units(next),
                ;
            } else {
                lemma_round_at_most(v * one, s, BINADE as nat);
                lemma_pow2_strictly_increases(52, ONE_EXPONENT as nat);
                lemma2_to64_rest();
                assert(BINADE == pow2(52));
                assert(w == 0) by (nonlinear_arith)
                    requires
                        w == steps.whole() * one,
                        w <= BINADE,
                        BINADE < one,
                ;
                assert(w * s == 0) by (nonlinear_arith)
                    requires
                        w == 0,
                ;
                assert(units(next) * one >= 0) by (nonlinear_arith);
            }
        }
        lemma_round_at_most(w * s, one, next);
        if steps.fractional() {
            if w * s > v * one {
                lemma_round_at_most(v * one, s, count.magnitude());
            }
            lemma_round_at_most(w * s, one, value.magnitude());
        }
    }
}

/// The smallest whole number of steps that covers a value, as a value cleaned
/// of what lies beyond the twelfth decimal.
pub open spec fn raised(value: Double, step: Double) -> Double {
    let trillion = Double { bits: TRILLION };
    if step.le_spec(Double { bits: ZERO }) {
        value
    } else {
        value.div_spec(step).ceil_spec().mul_spec(step).mul_spec(trillion).round_spec().div_spec(trillion)
    }
}

pub fn ceil_step(value: Double, step: Double) -> (r: Double)
    ensures
        r == raised(value, step),
{
    let trillion = Double { bits: TRILLION };
    if step.le(Double { bits: ZERO }) {
        value
    } else {
        value.div(step).ceil().mul(step).mul(trillion).round().div(trillion)
    }
}

/// A quantity or a price as an exchange takes it: at most twelve decimals, and
/// none that says nothing.
pub open spec fn quantity_text(value: Double) -> Seq<char> {
    without_suffixes(without_suffixes(fixed_text(value, 12), "0"@), "."@)
}

pub fn format_qty(value: Double) -> (s: String)
    ensures
        s@ == quantity_text(value),
{
    trim_end_matches(trim_end_matches(fixed(value, 12).as_str(), "0").as_str(), ".")
}

pub fn format_price(value: Double) -> (s: String)
    ensures
        s@ == quantity_text(value),
{
    trim_end_matches(trim_end_matches(fixed(value, 12).as_str(), "0").as_str(), ".")
}

/// Whether an opening spread is high enough.
pub open spec fn open_allowed(current: Double, threshold: Double) -> bool {
    threshold.le_spec(current.add_spec(Double { bits: EPSILON }))
}

pub fn spread_guard_allows(current: Double, threshold: Double) -> (b: bool)
    ensures
        b == open_allowed(current, threshold),
{
    current.add(Double { bits: EPSILON }).ge(threshold)
}

/// Whether a closing spread is low enough.
pub open spec fn close_allowed(current: Double, maximum: Double) -> bool {
    current.le_spec(maximum.add_spec(Double { bits: TRILLIONTH }))
}

pub fn close_spread_guard_allows(current: Double, maximum: Double) -> (b: bool)
    ensures
        b == close_allowed(current, maximum),
{
    current.le(maximum.add(Double { bits: TRILLIONTH }))
}

/// Whether a failed immediate-or-cancel order only found nothing to trade with.
pub open spec fn no_fill(error: Seq<char>) -> bool {
    let text = lower(error);
    ||| occurs(text, "status=expired"@)
    ||| occurs(text, "status=cancelled"@)
    ||| occurs(text, "status=canceled"@)
    ||| occurs(text, "order ended with status=cancelled"@)
    ||| occurs(text, "order ended with status=canceled"@)
}

pub fn is_ioc_no_fill(error: &str) -> (b: bool)
    ensures
        b == no_fill(error@),
{
    let normalized = to_ascii_lowercase(error);
    contains(normalized.as_str(), "status=expired") || contains(normalized.as_str(), "status=cancelled")
        || contains(normalized.as_str(), "status=canceled") || contains(
        normalized.as_str(),
        "order ended with status=cancelled",
    ) || contains(normalized.as_str(), "order ended with status=canceled")
}

/// What both sides of the top of the book can take.
pub open spec fn top_notional(opportunity: Opportunity) -> Double {
    opportunity.long.ask.mul_spec(opportunity.long.ask_quantity).min_spec(
        opportunity.short.bid.mul_spec(opportunity.short.bid_quantity),
    ).max_spec(Double { bits: ZERO })
}

pub fn executable_top_notional(opportunity: &Opportunity) -> (r: Double)
    ensures
        r == top_notional(*opportunity),
{
    opportunity.long.ask.mul(opportunity.long.ask_quantity).min(
        opportunity.short.bid.mul(opportunity.short.bid_quantity),
    ).max(Double { bits: ZERO })
}

/// What a leg is worth.
pub open spec fn notional(leg: PositionLeg) -> Double {
    leg.quantity.mul_spec(leg.mark_price)
}

pub fn position_notional(leg: &PositionLeg) -> (r: Double)
    ensures
        r == notional(*leg),
{
    leg.quantity.mul(leg.mark_price)
}

/// What a leg is worth; nothing where there is none.
pub open spec fn notional_or_zero(leg: Option<PositionLeg>) -> Double {
    match leg {
        Some(l) => notional(l),
        None => Double { bits: ZERO },
    }
}

pub fn optional_notional(leg: &Option<PositionLeg>) -> (r: Double)
    ensures
        r == notional_or_zero(*leg),
{
    match leg {
        Some(l) => position_notional(l),
        None => Double { bits: ZERO },
    }
}

/// The margin that holds a leg.
pub open spec fn leg_margin(leg: PositionLeg) -> Double {
    leg.quantity.mul_spec(leg.entry_price).div_spec(
        of_int(
            if leg.leverage < 1 {
                1
            } else {
                leg.leverage as int
            },
        ),
    )
}

pub open spec fn margin_basis(long: PositionLeg, short: PositionLeg) -> Double {
    leg_margin(long).add_spec(leg_margin(short))
}

fn margin(leg: &PositionLeg) -> (r: Double)
    ensures
        r == leg_margin(*leg),
{
    let leverage: i64 = if leg.leverage < 1 {
        1
    } else {
        leg.leverage as i64
    };
    leg.quantity.mul(leg.entry_price).div(Double::from_int(leverage))
}

pub fn position_margin_basis(long: &PositionLeg, short: &PositionLeg) -> (r: Double)
    ensures
        r == margin_basis(*long, *short),
{
    margin(long).add(margin(short))
}

/// A position with its profit, its margin and its return brought up to date.
pub open spec fn with_roi(position: Position) -> Position {
    let pnl = position.unrealized_pnl.add_spec(position.funding_earned);
    let basis = margin_basis(position.long, position.short);
    Position {
        current_pnl_usdt: pnl,
        roi_basis_usdt: basis,
        current_roi: if (Double { bits: EPSILON }).lt_spec(basis) {
            pnl.div_spec(basis)
        } else {
            Double { bits: ZERO }
        },
        ..position
    }
}

pub fn update_position_roi(position: &mut Position)
    ensures
        *final(position) == with_roi(*old(position)),
{
    position.current_pnl_usdt = position.unrealized_pnl.add(position.funding_earned);
    position.roi_basis_usdt = position_margin_basis(&position.long, &position.short);
    position.current_roi = if position.roi_basis_usdt.gt(Double { bits: EPSILON }) {
        position.current_pnl_usdt.div(position.roi_basis_usdt)
    } else {
        Double { bits: ZERO }
    };
}

/// How much a leg has shrunk, at a fixed price.
pub open spec fn reduced_notional(original: Double, remaining: Double, price: Double) -> Double {
    original.sub_spec(remaining).max_spec(Double { bits: ZERO }).mul_spec(price)
}

pub fn reduced_notional_at_reference(
    original_quantity: Double,
    final_quantity: Double,
    reference_price: Double,
) -> (r: Double)
    ensures
        r == reduced_notional(original_quantity, final_quantity, reference_price),
{
    original_quantity.sub(final_quantity).max(Double { bits: ZERO }).mul(reference_price)
}

/// The first quote of a contract.
pub open spec fn quote_of(quotes: Seq<PositionQuote>, leg: PositionLeg) -> Option<PositionQuote>
    decreases quotes.len(),
{
    if quotes.len() == 0 {
        None
    } else if quotes[0].exchange@ == leg.exchange@ && quotes[0].symbol@ == leg.symbol@ {
        Some(quotes[0])
    } else {
        quote_of(quotes.drop_first(), leg)
    }
}

/// A leg valued at a quote; unchanged where there is none.
pub open spec fn quoted(leg: PositionLeg, quote: Option<PositionQuote>) -> PositionLeg {
    match quote {
        None => leg,
        Some(q) => PositionLeg {
            mark_price: q.reference_price,
            unrealized_pnl: if leg.side@ == "long"@ {
                q.reference_price.sub_spec(leg.entry_price).mul_spec(leg.quantity)
            } else {
                leg.entry_price.sub_spec(q.reference_price).mul_spec(leg.quantity)
            },
            funding_rate: q.funding_rate,
            ..leg
        },
    }
}

/// All legs valued at their quotes.
pub open spec fn all_quoted(legs: Seq<PositionLeg>, quotes: Seq<PositionQuote>) -> Seq<PositionLeg> {
    Seq::new(legs.len(), |i: int| quoted(legs[i], quote_of(quotes, legs[i])))
}

fn find_quote(quotes: &Vec<PositionQuote>, leg: &PositionLeg) -> (r: Option<usize>)
    ensures
        match r {
            Some(i) => i < quotes@.len() && quote_of(quotes@, *leg) == Some(quotes@[i as int]),
            None => quote_of(quotes@, *leg) is None,
        },
{
    let mut i: usize = 0;
    proof {
        assert(quotes@.skip(0) =~= quotes@);
    }
    while i < quotes.len()
        invariant
            i <= quotes@.len(),
            quote_of(quotes@, *leg) == quote_of(quotes@.skip(i as int), *leg),
        decreases quotes@.len() - i,
    {
        proof {
            assert(quotes@.skip(i as int)[0] == quotes@[i as int]);
            assert(quotes@.skip(i as int).drop_first() =~= quotes@.skip(i as int + 1));
        }
        if quotes[i].exchange == leg.exchange && quotes[i].symbol == leg.symbol {
            return Some(i);
        }
        i = i + 1;
    }
    None
}

pub fn apply_position_quotes(legs: Vec<PositionLeg>, quotes: &Vec<PositionQuote>) -> (r: Vec<PositionLeg>)
    ensures
        r@ == all_quoted(legs@, quotes@),
{
    let mut r: Vec<PositionLeg> = Vec::new();
    let mut i: usize = 0;
    while i < legs.len()
        invariant
            i <= legs@.len(),
            r@ == all_quoted(legs@, quotes@).take(i as int),
        decreases legs@.len() - i,
    {
        let mut leg = legs[i].clone();
        match find_quote(quotes, &legs[i]) {
            Some(j) => {
                let price: Double = quotes[j].reference_price;
                let pnl: Double = if same(leg.side.as_str(), "long") {
                    price.sub(leg.entry_price).mul(leg.quantity)
                } else {
                    leg.entry_price.sub(price).mul(leg.quantity)
                };
                leg.mark_price = price;
                leg.unrealized_pnl = pnl;
                leg.funding_rate = quotes[j].funding_rate;
            },
            None => {},
        }
        proof {
            assert(leg == quoted(legs@[i as int], quote_of(quotes@, legs@[i as int])));
            assert(all_quoted(legs@, quotes@).take(i as int + 1) =~= all_quoted(legs@, quotes@).take(
                i as int,
            ).push(leg));
        }
        r.push(leg);
        i = i + 1;
    }
    proof {
        assert(all_quoted(legs@, quotes@).take(legs@.len() as int) =~= all_quoted(legs@, quotes@));
    }
    r
}

/// Rust's division of integers, which cuts towards zero.
pub open spec fn truncated(k: int, d: int) -> int {
    if k < 0 {
        -((-k) / d)
    } else {
        k / d
    }
}

/// The hour whose funding is known: it changes two minutes after the hour.
pub open spec fn funding_bucket(timestamp_millis: int) -> int {
    (truncated(timestamp_millis, 1_000) - FUNDING_REFRESH_DELAY_SECONDS) / 3_600
}

pub fn funding_refresh_bucket(timestamp_millis: i64) -> (bucket: i64)
    ensures
        bucket == funding_bucket(timestamp_millis as int),
{
    let t: i128 = timestamp_millis as i128;
    let seconds: i128 = if t < 0 {
        -((-t) / 1_000)
    } else {
        t / 1_000
    };
    let shifted: i128 = seconds - FUNDING_REFRESH_DELAY_SECONDS as i128;
    let bucket: i128 = if shifted < 0 {
        -((-shifted + 3_599) / 3_600)
    } else {
        shifted / 3_600
    };
    bucket as i64
}

/// The funding of an hour is looked up two minutes into the next one: the
/// bucket stays until then and grows by one there.
pub proof fn lemma_funding_bucket_rolls(hour: int, offset: int)
    requires
        hour >= 1,
        0 <= offset < 3_600_000,
    ensures
        offset < 120_000 ==> funding_bucket(hour * 3_600_000 + offset) == funding_bucket(
            hour * 3_600_000 - 1,
        ),
        offset >= 120_000 ==> funding_bucket(hour * 3_600_000 + offset) == funding_bucket(
            hour * 3_600_000 - 1,
        ) + 1,
{
    let t = hour * 3_600_000 + offset;
    assert(t / 1_000 == hour * 3_600 + offset / 1_000);
    assert((hour * 3_600_000 - 1) / 1_000 == hour * 3_600 - 1);
}

/// How far the notionals of two legs lie apart, relative to the larger one.
pub open spec fn imbalance(long: Double, short: Double) -> Double {
    let larger = long.max_spec(short);
    if larger.le_spec(Double { bits: EPSILON }) {
        Double { bits: ZERO }
    } else {
        long.sub_spec(short).abs_spec().div_spec(larger)
    }
}

/// How far two notionals lie apart is a share of the larger one: from zero,
/// also where there is nothing to divide by, up to one.
pub proof fn lemma_imbalance_is_a_share(long: Double, short: Double)
    requires
        long.finite(),
        !long.negative(),
        short.finite(),
        !short.negative(),
    ensures
        (Double { bits: ZERO }).le_spec(imbalance(long, short)),
        imbalance(long, short).le_spec(Double { bits: ONE }),
        long == short ==> imbalance(long, short).zero(),
{
    let larger = long.max_spec(short);
    let m = larger.magnitude();
    if !larger.le_spec(Double { bits: EPSILON }) {
        lemma_order_is_numeric(long, short);
        let apart = long.value() - short.value();
        let gap = long.sub_spec(short).abs_spec();
        assert(short.neg_spec().magnitude() == short.magnitude());
        assert(long.value() + short.neg_spec().value() == apart);
        let size: nat = if apart < 0 {
            (-apart) as nat
        } else {
            apart as nat
        };
        assert(units(m) * 1 == units(m));
        lemma_round_at_most(size, 1, m);
        assert(gap.finite() && gap.magnitude() <= m);
        if gap.magnitude() < m {
            lemma_units_increase(gap.magnitude(), m);
        }
        lemma_units_increase(0, m);
        let one = pow2(ONE_EXPONENT as nat);
        lemma_units_at(ONE as nat, 1022, BINADE as nat);
        lemma2_to64_rest();
        lemma_pow2_adds(52, 1022);
        assert(units(ONE as nat) == one);
        let n = units(gap.magnitude()) * one;
        assert(n <= units(ONE as nat) * units(m)) by (nonlinear_arith)
            requires
                n == units(gap.magnitude()) * one,
                units(gap.magnitude()) <= units(m),
                units(ONE as nat) == one,
        ;
        lemma_round_at_most(n, units(m), ONE as nat);
        if long == short {
            let d = units(m);
            lemma_sub_self(long);
            assert(gap.magnitude() == 0);
            assert(n == 0) by (nonlinear_arith)
                requires
                    n == units(gap.magnitude()) * one,
                    units(gap.magnitude()) == 0,
            ;
            lemma_fundamental_div_mod_converse(0, d as int, 0, 0);
            assert(0 < d * 2 * BINADE) by (nonlinear_arith)
                requires
                    0 < d,
            ;
            assert(round(0, d) == 0);
        }
    }
}

fn imbalance_ratio(long: Double, short: Double) -> (r: Double)
    ensures
        r == imbalance(long, short),
{
    let larger = long.max(short);
    if larger.le(Double { bits: EPSILON }) {
        Double { bits: ZERO }
    } else {
        long.sub(short).abs().div(larger)
    }
}

pub fn hedge_notional_imbalance_ratio(long: &PositionLeg, short: &PositionLeg) -> (r: Double)
    ensures
        r == imbalance(notional(*long), notional(*short)),
{
    imbalance_ratio(position_notional(long), position_notional(short))
}

/// Whether two notionals differ by more than ten USDT and by more than a ratio.
pub open spec fn mismatched(long: Double, short: Double, ratio: Double) -> bool {
    (Double { bits: HEDGE_PROTECTION_MINIMUM_DIFFERENCE_USDT }).lt_spec(long.sub_spec(short).abs_spec())
        && ratio.lt_spec(imbalance(long, short))
}

pub fn notional_mismatch_exceeds_values(
    long_notional: Double,
    short_notional: Double,
    tolerance_ratio: Double,
) -> (b: bool)
    ensures
        b == mismatched(long_notional, short_notional, tolerance_ratio),
{
    let difference = long_notional.sub(short_notional).abs();
    difference.gt(Double { bits: HEDGE_PROTECTION_MINIMUM_DIFFERENCE_USDT }) && imbalance_ratio(
        long_notional,
        short_notional,
    ).gt(tolerance_ratio)
}

pub fn hedge_notional_mismatch_exceeds(
    long: &PositionLeg,
    short: &PositionLeg,
    tolerance_ratio: Double,
) -> (b: bool)
    ensures
        b == mismatched(notional(*long), notional(*short), tolerance_ratio),
{
    notional_mismatch_exceeds_values(position_notional(long), position_notional(short), tolerance_ratio)
}

/// Whether both legs are there and hedge each other.
pub open spec fn balanced(long: Option<PositionLeg>, short: Option<PositionLeg>) -> bool {
    match (long, short) {
        (Some(l), Some(s)) => !mismatched(
            notional(l),
            notional(s),
            Double { bits: POSITION_RECONCILIATION_TOLERANCE_RATIO },
        ),
        _ => false,
    }
}

pub fn paired_positions_are_balanced(long: &Option<PositionLeg>, short: &Option<PositionLeg>) -> (b: bool)
    ensures
        b == balanced(*long, *short),
{
    match (long, short) {
        (Some(l), Some(s)) => !hedge_notional_mismatch_exceeds(
            l,
            s,
            Double { bits: POSITION_RECONCILIATION_TOLERANCE_RATIO },
        ),
        _ => false,
    }
}

/// Whether a leg is the named one and worth anything.
pub open spec fn is_route_leg(
    leg: PositionLeg,
    exchange: Seq<char>,
    market: Seq<char>,
    symbol: Seq<char>,
    side: Seq<char>,
) -> bool {
    &&& leg.exchange@ == exchange
    &&& leg.market@ == market
    &&& leg.symbol@ == symbol
    &&& leg.side@ == side
    &&& (Double { bits: EPSILON }).lt_spec(notional(leg))
}

/// The first leg that is the named one and worth anything.
pub open spec fn route_leg(
    legs: Seq<PositionLeg>,
    exchange: Seq<char>,
    market: Seq<char>,
    symbol: Seq<char>,
    side: Seq<char>,
) -> Option<PositionLeg>
    decreases legs.len(),
{
    if legs.len() == 0 {
        None
    } else if is_route_leg(legs[0], exchange, market, symbol, side) {
        Some(legs[0])
    } else {
        route_leg(legs.drop_first(), exchange, market, symbol, side)
    }
}

pub fn find_route_leg(
    legs: &Vec<PositionLeg>,
    exchange: &str,
    market: &str,
    symbol: &str,
    side: &str,
) -> (r: Option<PositionLeg>)
    ensures
        r == route_leg(legs@, exchange@, market@, symbol@, side@),
{
    let mut i: usize = 0;
    proof {
        assert(legs@.skip(0) =~= legs@);
    }
    while i < legs.len()
        invariant
            i <= legs@.len(),
            route_leg(legs@, exchange@, market@, symbol@, side@) == route_leg(
                legs@.skip(i as int),
                exchange@,
                market@,
                symbol@,
                side@,
            ),
        decreases legs@.len() - i,
    {
        proof {
            assert(legs@.skip(i as int)[0] == legs@[i as int]);
            assert(legs@.skip(i as int).drop_first() =~= legs@.skip(i as int + 1));
        }
        let leg = &legs[i];
        if same(leg.exchange.as_str(), exchange) && same(leg.market.as_str(), market) && same(
            leg.symbol.as_str(),
            symbol,
        ) && same(leg.side.as_str(), side) && position_notional(leg).gt(Double { bits: EPSILON }) {
            return Some(leg.clone());
        }
        i = i + 1;
    }
    None
}

/// How much of an orphaned leg one protective order takes.
pub open spec fn protective_quantity(
    leg: PositionLeg,
    excess: Double,
    step: Double,
    close_entire_leg: bool,
) -> Double {
    let order = Double { bits: HEDGE_PROTECTION_ORDER_USDT };
    if close_entire_leg && notional(leg).le_spec(order) {
        leg.quantity
    } else {
        floored(order.min_spec(excess).div_spec(leg.mark_price), step)
    }
}

pub fn protection_order_quantity(
    leg: &PositionLeg,
    excess_notional: Double,
    qty_step: Double,
    close_entire_leg: bool,
) -> (r: Double)
    ensures
        r == protective_quantity(*leg, excess_notional, qty_step, close_entire_leg),
{
    let order = Double { bits: HEDGE_PROTECTION_ORDER_USDT };
    if close_entire_leg && position_notional(leg).le(order) {
        leg.quantity
    } else {
        floor_step(order.min(excess_notional).div(leg.mark_price), qty_step)
    }
}

/// The average price of two fills.
pub open spec fn average_price(p1: Double, q1: Double, p2: Double, q2: Double) -> Double {
    let total = q1.add_spec(q2);
    if total.le_spec(Double { bits: ZERO }) {
        Double { bits: ZERO }
    } else {
        p1.mul_spec(q1).add_spec(p2.mul_spec(q2)).div_spec(total)
    }
}

pub fn weighted_average(
    first_price: Double,
    first_quantity: Double,
    second_price: Double,
    second_quantity: Double,
) -> (r: Double)
    ensures
        r == average_price(first_price, first_quantity, second_price, second_quantity),
{
    let total = first_quantity.add(second_quantity);
    if total.le(Double { bits: ZERO }) {
        Double { bits: ZERO }
    } else {
        first_price.mul(first_quantity).add(second_price.mul(second_quantity)).div(total)
    }
}

/// The name under which the funding baseline of a leg is kept.
pub fn position_funding_key(exchange: &str, symbol: &str, side: &str) -> (key: String)
    ensures
        key@ == exchange@ + ":"@ + symbol@ + ":"@ + side@,
{
    join3(exchange, symbol, side, ":")
}

/// Whether an opportunity is the route from one leg's market to another's.
pub open spec fn is_route(
    opportunity: Opportunity,
    token: Seq<char>,
    long: PositionLeg,
    short: PositionLeg,
) -> bool {
    &&& opportunity.token.symbol@ == token
    &&& opportunity.long.exchange@ == long.exchange@
    &&& opportunity.long.market@ == long.market@
    &&& opportunity.short.exchange@ == short.exchange@
    &&& opportunity.short.market@ == short.market@
}

/// The yield of the first opportunity on a route.
pub open spec fn route_apy(
    opportunities: Seq<Opportunity>,
    token: Seq<char>,
    long: PositionLeg,
    short: PositionLeg,
) -> Option<Double>
    decreases opportunities.len(),
{
    if opportunities.len() == 0 {
        None
    } else if is_route(opportunities[0], token, long, short) {
        Some(opportunities[0].apy)
    } else {
        route_apy(opportunities.drop_first(), token, long, short)
    }
}

fn find_route_apy(
    opportunities: &Vec<Opportunity>,
    token: &str,
    long: &PositionLeg,
    short: &PositionLeg,
) -> (r: Option<Double>)
    ensures
        r == route_apy(opportunities@, token@, *long, *short),
{
    let mut i: usize = 0;
    proof {
        assert(opportunities@.skip(0) =~= opportunities@);
    }
    while i < opportunities.len()
        invariant
            i <= opportunities@.len(),
            route_apy(opportunities@, token@, *long, *short) == route_apy(
                opportunities@.skip(i as int),
                token@,
                *long,
                *short,
            ),
        decreases opportunities@.len() - i,
    {
        proof {
            assert(opportunities@.skip(i as int)[0] == opportunities@[i as int]);
            assert(opportunities@.skip(i as int).drop_first() =~= opportunities@.skip(i as int + 1));
        }
        let o = &opportunities[i];
        if same(o.token.symbol.as_str(), token) && o.long.exchange == long.exchange && o.long.market
            == long.market && o.short.exchange == short.exchange && o.short.market == short.market {
            return Some(o.apy);
        }
        i = i + 1;
    }
    None
}

/// The yield of a held route in percent. A scan lists a route only in its
/// profitable direction: the reverse one earns exactly the opposite. Where
/// neither is listed the yield is unknown.
pub open spec fn held_apy(position: Position, opportunities: Seq<Opportunity>) -> Option<Double> {
    let hundred = Double { bits: HUNDRED };
    match route_apy(opportunities, position.token@, position.long, position.short) {
        Some(apy) => Some(apy.mul_spec(hundred)),
        None => match route_apy(opportunities, position.token@, position.short, position.long) {
            Some(apy) => Some(apy.neg_spec().mul_spec(hundred)),
            None => None,
        },
    }
}

pub fn held_route_apy_percent(position: &Position, opportunities: &Vec<Opportunity>) -> (r: Option<Double>)
    ensures
        r == held_apy(*position, opportunities@),
{
    let hundred = Double { bits: HUNDRED };
    match find_route_apy(opportunities, position.token.as_str(), &position.long, &position.short) {
        Some(apy) => Some(apy.mul(hundred)),
        None => match find_route_apy(
            opportunities,
            position.token.as_str(),
            &position.short,
            &position.long,
        ) {
            Some(apy) => Some(apy.neg().mul(hundred)),
            None => None,
        },
    }
}

/// The next batch of an automatic close; none where the rest is closed at once.
pub open spec fn close_batch(remaining: Double, order: Double, tolerance: Double) -> Option<Double> {
    let amount = order.min_spec(remaining.sub_spec(tolerance).max_spec(Double { bits: ZERO }));
    if remaining.le_spec(order) {
        None
    } else if (Double { bits: TEN }).le_spec(amount) {
        Some(amount)
    } else {
        None
    }
}

pub fn auto_close_reduction(remaining: Double, order_notional: Double, tolerance: Double) -> (r: Option<
    Double,
>)
    ensures
        r == close_batch(remaining, order_notional, tolerance),
{
    if remaining.le(order_notional) {
        return None;
    }
    let amount = order_notional.min(remaining.sub(tolerance).max(Double { bits: ZERO }));
    if amount.ge(Double { bits: TEN }) {
        Some(amount)
    } else {
        None
    }
}

/// A batch of an automatic close is never larger than the configured order,
/// and never smaller than ten USDT.
pub proof fn lemma_close_batch_bounded(remaining: Double, order: Double, tolerance: Double)
    requires
        !order.nan(),
    ensures
        close_batch(remaining, order, tolerance) matches Some(amount) ==> amount.le_spec(order) && (Double {
            bits: TEN,
        }).le_spec(amount),
{
}

/// Whether a batch may be closed without a loss on the whole.
pub open spec fn without_loss(realized: Double, projected: Double) -> bool {
    (Double { bits: MINUS_HUNDRED_MILLIONTH }).le_spec(realized.add_spec(projected))
}

pub fn no_loss_next_batch_allowed(realized_position_pnl: Double, projected_batch_pnl: Double) -> (b: bool)
    ensures
        b == without_loss(realized_position_pnl, projected_batch_pnl),
{
    realized_position_pnl.add(projected_batch_pnl).ge(Double { bits: MINUS_HUNDRED_MILLIONTH })
}

} // verus!
