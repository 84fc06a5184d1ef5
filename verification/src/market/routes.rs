//! Routes: which two legs to hold, and what that earns.

use crate::market::projection::{hour_start, period_start, projected_rate, projected_rate_at, HOUR_MILLIS};
use crate::models::{Leg, Opportunity, Token};
use crate::num::constants::{BINANCE_FEE, BYBIT_FEE, HALF_PERCENT, THOUSANDTH, TWO, YEAR_HOURS, ZERO};
use crate::num::about::{
    about, fine, lemma_about_itself, lemma_about_product, lemma_about_quotient, lemma_about_same_sum,
    lemma_difference_is_near, lemma_gap_over, lemma_quotient_is_near, lemma_rates_apart, one, sized,
};
use crate::num::double::{lemma_add_zero, lemma_order_is_numeric, size, ONE_EXPONENT};
use crate::num::order::{
    lemma_neg_turns, lemma_product_sign, lemma_quotient_monotone, lemma_quotient_sign, lemma_sub_monotone,
    lemma_sub_tells_the_larger, positive,
};
use crate::num::rounding::{lemma_units_at, units, BINADE};
use crate::num::Double;
use crate::text::{join3, pieces, same, split, texts};
use vstd::arithmetic::power2::{
    lemma2_to64, lemma2_to64_rest, lemma_pow2_adds, lemma_pow2_pos, lemma_pow2_strictly_increases, lemma_pow2_unfold,
    pow2,
};
use vstd::prelude::*;
use vstd::string::StringExecFns;

verus! {

/// The gap that a price has to show before it is offered.
pub const SPREAD_OPPORTUNITY_ABSOLUTE_THRESHOLD: u64 = HALF_PERCENT;

/// How far a gap has to be from its average before it is offered.
pub const SPREAD_OPPORTUNITY_DEVIATION_THRESHOLD: u64 = HALF_PERCENT;

/// The taker fee of an exchange.
pub open spec fn taker_fee(exchange: Seq<char>) -> Double {
    if exchange == "Binance"@ {
        Double { bits: BINANCE_FEE }
    } else {
        Double { bits: BYBIT_FEE }
    }
}

fn fee_of(exchange: &str) -> (fee: Double)
    ensures
        fee == taker_fee(exchange@),
{
    if same(exchange, "Binance") {
        Double { bits: BINANCE_FEE }
    } else {
        Double { bits: BYBIT_FEE }
    }
}

/// What it costs to open and close both legs.
pub open spec fn round_trip_fees(long: Leg, short: Leg) -> Double {
    (Double { bits: TWO }).mul_spec(taker_fee(long.exchange@).add_spec(taker_fee(short.exchange@)))
}

/// How much more the short leg sells for than the long leg costs.
pub open spec fn executable_spread(long: Leg, short: Leg) -> Double {
    short.bid.sub_spec(long.ask).div_spec(long.ask)
}

/// How many hours of funding pay for the fees that the spread does not.
pub open spec fn hours_to_break_even(funding_per_hour: Double, fees: Double, spread_vs_average: Double) -> Double {
    let zero = Double { bits: ZERO };
    if zero.lt_spec(funding_per_hour) {
        fees.sub_spec(spread_vs_average).max_spec(zero).div_spec(funding_per_hour)
    } else {
        zero
    }
}

/// How many hours of funding pay for the fees that the spread does not.
pub fn break_even_hours(funding_per_hour: Double, fees: Double, spread_vs_average: Double) -> (r: Double)
    ensures
        r == hours_to_break_even(funding_per_hour, fees, spread_vs_average),
{
    let zero = Double { bits: ZERO };
    if funding_per_hour.gt(zero) {
        fees.sub(spread_vs_average).max(zero).div(funding_per_hour)
    } else {
        zero
    }
}

/// Whether both legs are perpetual contracts.
pub open spec fn both_perpetual(long: Leg, short: Leg) -> bool {
    long.market@ == "perpetual"@ && short.market@ == "perpetual"@
}

/// Whether the desk can trade a route: two perpetual contracts, or a perpetual
/// contract of Binance against its borrowed coin.
pub open spec fn tradable(long: Leg, short: Leg) -> bool {
    both_perpetual(long, short) || (long.exchange@ == "Binance"@ && long.market@ == "perpetual"@
        && short.exchange@ == "Binance"@ && short.market@ == "spot"@)
}

/// The identifier of a route: the token and both exchanges, with their markets
/// unless both are perpetual contracts.
pub open spec fn route_id(token: Token, long: Leg, short: Leg) -> Seq<char> {
    if both_perpetual(long, short) {
        token.symbol@ + "-"@ + long.exchange@ + "-"@ + short.exchange@
    } else {
        token.symbol@ + "-"@ + long.exchange@ + "-"@ + long.market@ + "-"@ + short.exchange@ + "-"@ + short.market@
    }
}

/// Whether an offer is that of a route.
pub open spec fn is_offer(offer: Opportunity, token: Token, long: Leg, short: Leg, funding_per_hour: Double) -> bool {
    let zero = Double { bits: ZERO };
    &&& offer.id@ == route_id(token, long, short)
    &&& offer.token.copies(token)
    &&& offer.long.copies(long)
    &&& offer.short.copies(short)
    &&& offer.funding_per_hour == funding_per_hour
    &&& offer.borrow_interest_per_hour == zero
    &&& offer.apy == funding_per_hour.mul_spec(Double { bits: YEAR_HOURS })
    &&& offer.apy_horizon_hours == 1
    &&& offer.spread == executable_spread(long, short)
    &&& offer.average_spread_24h == executable_spread(long, short)
    &&& offer.spread_vs_average == zero
    &&& offer.fees == round_trip_fees(long, short)
    &&& offer.break_even_hours == hours_to_break_even(
        funding_per_hour,
        round_trip_fees(long, short),
        zero,
    )
    &&& offer.route_type@ == (if both_perpetual(long, short) {
        "cross_perpetual"@
    } else {
        "spot_perpetual"@
    })
    &&& offer.execution_supported == tradable(long, short)
}

/// The offer of a route.
pub fn build_opportunity(token: &Token, long: &Leg, short: &Leg, funding_per_hour: Double) -> (offer: Opportunity)
    ensures
        is_offer(offer, *token, *long, *short, funding_per_hour),
{
    let zero = Double { bits: ZERO };
    let spread = short.bid.sub(long.ask).div(long.ask);
    let fees = (Double { bits: TWO }).mul(
        fee_of(long.exchange.as_str()).add(fee_of(short.exchange.as_str())),
    );
    let perpetual: bool = same(long.market.as_str(), "perpetual") && same(short.market.as_str(), "perpetual");
    let margin: bool = same(long.exchange.as_str(), "Binance") && same(long.market.as_str(), "perpetual")
        && same(short.exchange.as_str(), "Binance") && same(short.market.as_str(), "spot");
    let mut id = token.symbol.clone();
    id.append("-");
    id.append(long.exchange.as_str());
    if !perpetual {
        id.append("-");
        id.append(long.market.as_str());
    }
    id.append("-");
    id.append(short.exchange.as_str());
    if !perpetual {
        id.append("-");
        id.append(short.market.as_str());
    }
    Opportunity {
        id,
        token: token.clone(),
        long: long.clone(),
        short: short.clone(),
        funding_per_hour,
        borrow_interest_per_hour: zero,
        apy: funding_per_hour.mul(Double { bits: YEAR_HOURS }),
        apy_horizon_hours: 1,
        spread,
        average_spread_24h: spread,
        spread_vs_average: zero,
        fees,
        break_even_hours: break_even_hours(funding_per_hour, fees, zero),
        route_type: if perpetual {
            "cross_perpetual".to_owned()
        } else {
            "spot_perpetual".to_owned()
        },
        execution_supported: perpetual || margin,
    }
}

/// The end of the hour that is running.
pub open spec fn coming_hour(now: int) -> int {
    period_start(now, HOUR_MILLIS as int) + HOUR_MILLIS
}

/// Whether this is the offer of two perpetual contracts: the one that settles
/// higher at the end of the hour is short. There is none where they settle
/// alike.
pub open spec fn is_cross_candidate(r: Option<Opportunity>, token: Token, first: Leg, second: Leg, now: int) -> bool {
    let zero = Double { bits: ZERO };
    let first_rate = projected_rate(first, coming_hour(now), zero);
    let second_rate = projected_rate(second, coming_hour(now), zero);
    if first_rate.lt_spec(second_rate) {
        r matches Some(offer) && is_offer(offer, token, first, second, second_rate.sub_spec(first_rate))
    } else if second_rate.lt_spec(first_rate) {
        r matches Some(offer) && is_offer(offer, token, second, first, first_rate.sub_spec(second_rate))
    } else {
        r is None
    }
}

/// The offer of two perpetual contracts, if there is one.
pub fn make_cross_candidate_at(token: &Token, first: &Leg, second: &Leg, now: i64) -> (r: Option<Opportunity>)
    ensures
        is_cross_candidate(r, *token, *first, *second, now as int),
{
    let zero = Double { bits: ZERO };
    let hour: i128 = hour_start(now) + HOUR_MILLIS;
    let first_rate = projected_rate_at(first, hour, zero);
    let second_rate = projected_rate_at(second, hour, zero);
    if second_rate.gt(first_rate) {
        Some(build_opportunity(token, first, second, second_rate.sub(first_rate)))
    } else if first_rate.gt(second_rate) {
        Some(build_opportunity(token, second, first, first_rate.sub(second_rate)))
    } else {
        None
    }
}

/// Whether a leg is another one with the next settlement of a third.
pub open spec fn retimed(new: Leg, old: Leg, other: Leg) -> bool {
    new.copies(Leg { next_funding_time: other.next_funding_time, ..old })
}

/// Whether an offer holds a perpetual contract long and its coin short.
pub open spec fn is_spot_short(r: Option<Opportunity>, token: Token, perpetual: Leg, spot: Leg) -> bool {
    let zero = Double { bits: ZERO };
    if zero.le_spec(perpetual.rate) || perpetual.interval_hours.le_spec(zero) {
        r is None
    } else {
        &&& r matches Some(offer)
        &&& exists|timed: Leg| #[trigger]
            retimed(timed, spot, perpetual) && is_offer(
                offer,
                token,
                perpetual,
                timed,
                perpetual.rate.neg_spec().div_spec(perpetual.interval_hours),
            )
    }
}

/// The offer that is paid a negative rate: the contract long, its coin short.
pub fn make_spot_short_perpetual_long(token: &Token, perpetual: &Leg, spot: &Leg) -> (r: Option<Opportunity>)
    ensures
        is_spot_short(r, *token, *perpetual, *spot),
{
    let zero = Double { bits: ZERO };
    if perpetual.rate.ge(zero) || perpetual.interval_hours.le(zero) {
        return None;
    }
    let mut timed = spot.clone();
    timed.next_funding_time = perpetual.next_funding_time;
    proof {
        assert(retimed(timed, *spot, *perpetual));
    }
    Some(
        build_opportunity(
            token,
            perpetual,
            &timed,
            perpetual.rate.neg().div(perpetual.interval_hours),
        ),
    )
}

/// Whether an offer holds a coin long and its perpetual contract short.
pub open spec fn is_spot_long(r: Option<Opportunity>, token: Token, perpetual: Leg, spot: Leg) -> bool {
    let zero = Double { bits: ZERO };
    if perpetual.rate.le_spec(zero) || perpetual.interval_hours.le_spec(zero) {
        r is None
    } else {
        &&& r matches Some(offer)
        &&& exists|timed: Leg| #[trigger]
            retimed(timed, spot, perpetual) && is_offer(
                offer,
                token,
                timed,
                perpetual,
                perpetual.rate.div_spec(perpetual.interval_hours),
            )
    }
}

/// The offer that is paid a positive rate: the coin long, its contract short.
pub fn make_spot_long_perpetual_short(token: &Token, perpetual: &Leg, spot: &Leg) -> (r: Option<Opportunity>)
    ensures
        is_spot_long(r, *token, *perpetual, *spot),
{
    let zero = Double { bits: ZERO };
    if perpetual.rate.le(zero) || perpetual.interval_hours.le(zero) {
        return None;
    }
    let mut timed = spot.clone();
    timed.next_funding_time = perpetual.next_funding_time;
    proof {
        assert(retimed(timed, *spot, *perpetual));
    }
    Some(
        build_opportunity(token, &timed, perpetual, perpetual.rate.div(perpetual.interval_hours)),
    )
}

/// Whether an offer buys where the price is low and sells where it is high.
pub open spec fn is_spread_offer(r: Option<Opportunity>, token: Token, first: Leg, second: Leg) -> bool {
    let forward = executable_spread(first, second);
    let backward = executable_spread(second, first);
    let (long, short) = if backward.lt_spec(forward) {
        (first, second)
    } else {
        (second, first)
    };
    if executable_spread(long, short).le_spec(Double { bits: SPREAD_OPPORTUNITY_ABSOLUTE_THRESHOLD }) {
        r is None
    } else {
        r matches Some(offer) && is_offer(
            offer,
            token,
            long,
            short,
            short.rate.div_spec(short.interval_hours).sub_spec(long.rate.div_spec(long.interval_hours)),
        )
    }
}

/// The offer of a price gap, if it is large enough.
pub fn make_spread_opportunity(token: &Token, first: &Leg, second: &Leg) -> (r: Option<Opportunity>)
    ensures
        is_spread_offer(r, *token, *first, *second),
{
    let forward = second.bid.sub(first.ask).div(first.ask);
    let backward = first.bid.sub(second.ask).div(second.ask);
    let (long, short, spread) = if forward.gt(backward) {
        (first, second, forward)
    } else {
        (second, first, backward)
    };
    if spread.le(Double { bits: SPREAD_OPPORTUNITY_ABSOLUTE_THRESHOLD }) {
        return None;
    }
    let funding = short.rate.div(short.interval_hours).sub(long.rate.div(long.interval_hours));
    Some(build_opportunity(token, long, short, funding))
}

/// Whether a leg is about a share or a commodity.
pub open spec fn tradefi(leg: Leg) -> bool {
    exists|i: int| 0 <= i < leg.tags@.len() && (#[trigger] leg.tags@[i])@ == "tradefi"@
}

/// Whether a leg is about a share or a commodity.
pub fn is_tradefi(leg: &Leg) -> (b: bool)
    ensures
        b == tradefi(*leg),
{
    let mut i: usize = 0;
    while i < leg.tags.len()
        invariant
            i <= leg.tags@.len(),
            forall|k: int| 0 <= k < i ==> (#[trigger] leg.tags@[k])@ != "tradefi"@,
        decreases leg.tags@.len() - i,
    {
        if same(leg.tags[i].as_str(), "tradefi") {
            return true;
        }
        i = i + 1;
    }
    false
}

/// Whether a token is the one of a symbol: a share or commodity where both legs
/// are, otherwise what the list of the largest assets says about it.
pub open spec fn is_classified(token: Token, symbol: Seq<char>, listed: Option<Token>, first: Leg, second: Leg) -> bool {
    let share = tradefi(first) && tradefi(second);
    &&& token.symbol@ == symbol
    &&& token.name@ == (if share || listed is None {
        symbol
    } else {
        listed->0.name@
    })
    &&& token.rank == (if share || listed is None {
        None
    } else {
        listed->0.rank
    })
    &&& texts(token.tags@) == (if share {
        seq!["tradefi"@]
    } else if listed is Some {
        seq!["cmc200"@]
    } else {
        Seq::empty()
    })
}

/// The token of a symbol.
pub fn classify_token(symbol: &str, listed: Option<&Token>, first: &Leg, second: &Leg) -> (token: Token)
    ensures
        is_classified(
            token,
            symbol@,
            match listed {
                Some(t) => Some(*t),
                None => None,
            },
            *first,
            *second,
        ),
{
    let share: bool = is_tradefi(first) && is_tradefi(second);
    let mut tags: Vec<String> = Vec::new();
    proof {
        assert(texts(tags@) =~= Seq::<Seq<char>>::empty());
    }
    if share {
        tags.push("tradefi".to_owned());
        proof {
            assert(texts(tags@) =~= seq!["tradefi"@]);
        }
    } else if listed.is_some() {
        tags.push("cmc200".to_owned());
        proof {
            assert(texts(tags@) =~= seq!["cmc200"@]);
        }
    }
    match listed {
        Some(t) if !share => Token {
            symbol: symbol.to_owned(),
            name: t.name.clone(),
            rank: t.rank,
            tags,
        },
        _ => Token { symbol: symbol.to_owned(), name: symbol.to_owned(), rank: None, tags },
    }
}

/// The price that a strategy goes by: the mark, unless it is more than a tenth of
/// a percent away from the last price. The second result says whether it is the
/// last one.
pub open spec fn reference_price(mark: Double, last: Double) -> (Double, bool) {
    if (Double { bits: ZERO }).lt_spec(last) && (Double { bits: THOUSANDTH }).lt_spec(
        mark.sub_spec(last).abs_spec().div_spec(last),
    ) {
        (last, true)
    } else {
        (mark, false)
    }
}

/// The price that a strategy goes by.
pub fn strategy_reference_price(mark_price: Double, last_price: Double) -> (r: (Double, bool))
    ensures
        r == reference_price(mark_price, last_price),
{
    if last_price.gt(Double { bits: ZERO }) && mark_price.sub(last_price).abs().div(last_price).gt(
        Double { bits: THOUSANDTH },
    ) {
        (last_price, true)
    } else {
        (mark_price, false)
    }
}

/// The name of a leg.
pub open spec fn route_key(exchange: Seq<char>, market: Seq<char>, symbol: Seq<char>) -> Seq<char> {
    exchange + ":"@ + market + ":"@ + symbol
}

/// The name of a leg.
pub fn route_leg_key(exchange: &str, market: &str, symbol: &str) -> (key: String)
    ensures
        key@ == route_key(exchange@, market@, symbol@),
{
    join3(exchange, market, symbol, ":")
}

/// The host of an address: what stands between its second and third slash.
pub fn host(url: &str) -> (r: String)
    ensures
        r@ == (if pieces(url@, '/').len() > 2 {
            pieces(url@, '/')[2]
        } else {
            "upstream"@
        }),
{
    let parts = split(url, '/');
    proof {
        assert(texts(parts@).len() == parts@.len());
    }
    if parts.len() > 2 {
        proof {
            assert(texts(parts@)[2] == parts@[2]@);
        }
        parts[2].clone()
    } else {
        "upstream".to_owned()
    }
}

/// Whether the quotes of a leg are prices.
pub open spec fn has_quotes(leg: Leg) -> bool {
    leg.bid.finite() && positive(leg.bid) && leg.ask.finite() && positive(leg.ask)
}

/// Whether a leg settles a finite rate every so many hours.
pub open spec fn has_rate(leg: Leg) -> bool {
    leg.rate.finite() && leg.interval_hours.finite() && positive(leg.interval_hours)
}

/// Whether an hourly funding is that of being paid the rate of the short leg and
/// paying that of the long one, up to rounding.
pub open spec fn earns_the_difference(funding: Double, long: Leg, short: Leg) -> bool {
    let x = short.interval_hours.value();
    let y = long.interval_hours.value();
    let s = short.rate.value();
    let l = long.rate.value();
    fine() * size(funding.value() * (x * y) - (s * y - l * x) * one()) <= 3 * ((size(s) * y + size(l) * x) * one())
        + 3 * (fine() * (x * y))
}

/// The funding of the offer of a price gap is what the short leg is paid less what
/// the long leg pays, per hour.
pub proof fn lemma_gap_offer_earns_the_difference(offer: Opportunity, token: Token, first: Leg, second: Leg)
    requires
        is_spread_offer(Some(offer), token, first, second),
        has_rate(first),
        has_rate(second),
    ensures
        !offer.funding_per_hour.nan() ==> {
            &&& offer.funding_per_hour.finite() ==> earns_the_difference(
                offer.funding_per_hour,
                offer.long,
                offer.short,
            )
            &&& offer.long.interval_hours == offer.short.interval_hours && offer.long.rate.le_spec(offer.short.rate)
                ==> (Double { bits: ZERO }).le_spec(offer.funding_per_hour) && (Double { bits: ZERO }).le_spec(
                offer.apy,
            )
            &&& offer.long.interval_hours == offer.short.interval_hours && offer.short.rate.le_spec(offer.long.rate)
                ==> offer.funding_per_hour.le_spec(Double { bits: ZERO }) && offer.apy.le_spec(Double { bits: ZERO })
            &&& (Double { bits: ZERO }).le_spec(offer.short.rate) && offer.long.rate.le_spec(Double { bits: ZERO })
                ==> (Double { bits: ZERO }).le_spec(offer.funding_per_hour)
            &&& offer.short.rate.le_spec(Double { bits: ZERO }) && (Double { bits: ZERO }).le_spec(offer.long.rate)
                ==> offer.funding_per_hour.le_spec(Double { bits: ZERO })
        },
{
    let zero = Double { bits: ZERO };
    let long = offer.long;
    let short = offer.short;
    let a = short.rate.div_spec(short.interval_hours);
    let b = long.rate.div_spec(long.interval_hours);
    let funding = offer.funding_per_hour;
    assert(funding == a.sub_spec(b));
    lemma_quotient_sign(short.rate, short.interval_hours);
    lemma_quotient_sign(long.rate, long.interval_hours);
    if !funding.nan() {
        if funding.finite() {
            lemma_rates_apart(short.rate, short.interval_hours, long.rate, long.interval_hours);
        }
        lemma_sub_tells_the_larger(a, b);
        assert(zero.sub_spec(zero) == zero);
        let hours = Double { bits: YEAR_HOURS };
        lemma_yearly_sign(funding);
        if long.interval_hours == short.interval_hours && long.rate.le_spec(short.rate) {
            lemma_quotient_monotone(long.rate, short.rate, long.interval_hours);
            if a.finite() || b.finite() {
                assert(zero.le_spec(funding));
            }
        }
        if long.interval_hours == short.interval_hours && short.rate.le_spec(long.rate) {
            lemma_quotient_monotone(short.rate, long.rate, long.interval_hours);
        }
        if zero.le_spec(short.rate) && long.rate.le_spec(zero) {
            lemma_sub_monotone(zero, a, zero, b);
        }
        if short.rate.le_spec(zero) && zero.le_spec(long.rate) {
            lemma_sub_monotone(a, zero, b, zero);
        }
    }
}

/// The yearly return lies on the side of zero of the hourly one.
proof fn lemma_yearly_sign(funding: Double)
    requires
        !funding.nan(),
    ensures
        ({
            let zero = Double { bits: ZERO };
            let apy = funding.mul_spec(Double { bits: YEAR_HOURS });
            &&& zero.le_spec(funding) ==> zero.le_spec(apy)
            &&& funding.le_spec(zero) ==> apy.le_spec(zero)
        }),
{
    lemma_product_sign(funding, Double { bits: YEAR_HOURS });
}

/// The funding of the offer of a price gap does not fall where the rate of its
/// short leg rises, nor where that of its long leg falls.
pub proof fn lemma_gap_funding_follows_the_rates(
    one_offer: Opportunity,
    other: Opportunity,
    token: Token,
    first: Leg,
    second: Leg,
    third: Leg,
    fourth: Leg,
)
    requires
        is_spread_offer(Some(one_offer), token, first, second),
        is_spread_offer(Some(other), token, third, fourth),
        has_rate(first),
        has_rate(second),
        has_rate(third),
        has_rate(fourth),
        one_offer.long.interval_hours == other.long.interval_hours,
        one_offer.short.interval_hours == other.short.interval_hours,
        one_offer.short.rate.le_spec(other.short.rate),
        other.long.rate.le_spec(one_offer.long.rate),
        !one_offer.funding_per_hour.nan(),
        !other.funding_per_hour.nan(),
    ensures
        one_offer.funding_per_hour.le_spec(other.funding_per_hour),
{
    lemma_quotient_monotone(one_offer.short.rate, other.short.rate, other.short.interval_hours);
    lemma_quotient_monotone(other.long.rate, one_offer.long.rate, other.long.interval_hours);
    lemma_sub_monotone(
        one_offer.short.rate.div_spec(one_offer.short.interval_hours),
        other.short.rate.div_spec(other.short.interval_hours),
        one_offer.long.rate.div_spec(one_offer.long.interval_hours),
        other.long.rate.div_spec(other.long.interval_hours),
    );
}

/// An offer says how much more its short leg sells for than its long leg costs, as
/// a share of what the long leg costs.
pub proof fn lemma_offer_tells_the_gap(
    offer: Opportunity,
    token: Token,
    long: Leg,
    short: Leg,
    funding_per_hour: Double,
)
    requires
        is_offer(offer, token, long, short, funding_per_hour),
        has_quotes(long),
        has_quotes(short),
    ensures
        !offer.spread.nan(),
        long.ask.le_spec(short.bid) ==> (Double { bits: ZERO }).le_spec(offer.spread),
        short.bid.le_spec(long.ask) ==> offer.spread.le_spec(Double { bits: ZERO }),
        offer.spread.finite() ==> {
            let gap = short.bid.value() - long.ask.value();
            fine() * size(offer.spread.value() * long.ask.value() - gap * one()) <= 3 * (size(gap) * one()) + fine()
                * long.ask.value()
        },
{
    lemma_spread_tells_the_gap(long, short);
}

/// A price gap is offered where it is bought at less than it is sold for: the leg
/// whose ask is below the bid of the other one is long.
pub proof fn lemma_gap_is_bought_low_and_sold_high(offer: Opportunity, token: Token, first: Leg, second: Leg)
    requires
        is_spread_offer(Some(offer), token, first, second),
        has_quotes(first),
        has_quotes(second),
    ensures
        offer.long.ask.lt_spec(offer.short.bid),
        (offer.long.copies(first) && offer.short.copies(second)) || (offer.long.copies(second) && offer.short.copies(
            first,
        )),
        first.bid.le_spec(first.ask) && second.bid.le_spec(second.ask) && first.ask.lt_spec(second.bid)
            ==> offer.long.copies(first) && offer.short.copies(second),
        first.bid.le_spec(first.ask) && second.bid.le_spec(second.ask) && second.ask.lt_spec(first.bid)
            ==> offer.long.copies(second) && offer.short.copies(first),
{
    let forward = executable_spread(first, second);
    let backward = executable_spread(second, first);
    let (long, short) = if backward.lt_spec(forward) {
        (first, second)
    } else {
        (second, first)
    };
    lemma_spread_tells_the_gap(first, second);
    lemma_spread_tells_the_gap(second, first);
    assert(!executable_spread(long, short).le_spec(Double { bits: HALF_PERCENT }));
    if short.bid.le_spec(long.ask) {
        assert(executable_spread(long, short).le_spec(Double { bits: ZERO }));
    }
    assert(long.ask.lt_spec(short.bid));
}

/// How much more a short leg sells for than a long leg costs, as a share of what
/// the long leg costs.
pub proof fn lemma_spread_tells_the_gap(long: Leg, short: Leg)
    requires
        has_quotes(long),
        has_quotes(short),
    ensures
        ({
            let spread = executable_spread(long, short);
            &&& !spread.nan()
            &&& long.ask.le_spec(short.bid) ==> (Double { bits: ZERO }).le_spec(spread)
            &&& short.bid.le_spec(long.ask) ==> spread.le_spec(Double { bits: ZERO })
            &&& spread.finite() ==> {
                let gap = short.bid.value() - long.ask.value();
                fine() * size(spread.value() * long.ask.value() - gap * one()) <= 3 * (size(gap) * one()) + fine()
                    * long.ask.value()
            }
        }),
{
    let g = short.bid.sub_spec(long.ask);
    lemma_neg_turns(long.ask);
    assert(!g.nan());
    lemma_sub_tells_the_larger(short.bid, long.ask);
    lemma_quotient_sign(g, long.ask);
    if executable_spread(long, short).finite() {
        lemma_gap_over(short.bid, long.ask, long.ask);
    }
}

/// What is offered pays: the contract that settles higher at the end of the hour
/// is the short leg, by whatever name it was given first, and the offer is worth
/// the difference.
pub proof fn lemma_cross_offer_pays(offer: Opportunity, token: Token, first: Leg, second: Leg, now: int)
    requires
        is_cross_candidate(Some(offer), token, first, second, now),
    ensures
        ({
            let zero = Double { bits: ZERO };
            let long_rate = projected_rate(offer.long, coming_hour(now), zero);
            let short_rate = projected_rate(offer.short, coming_hour(now), zero);
            &&& long_rate.lt_spec(short_rate)
            &&& long_rate.finite() && short_rate.finite() ==> positive(offer.funding_per_hour)
            &&& long_rate.finite() && short_rate.finite() && offer.funding_per_hour.finite() ==> fine() * size(
                offer.funding_per_hour.value() - (short_rate.value() - long_rate.value()),
            ) <= size(short_rate.value() - long_rate.value())
            &&& is_cross_candidate(Some(offer), token, second, first, now)
        }),
{
    let zero = Double { bits: ZERO };
    let long_rate = projected_rate(offer.long, coming_hour(now), zero);
    let short_rate = projected_rate(offer.short, coming_hour(now), zero);
    if long_rate.finite() && short_rate.finite() {
        lemma_neg_turns(long_rate);
        assert(!offer.funding_per_hour.nan());
        lemma_sub_tells_the_larger(short_rate, long_rate);
        if offer.funding_per_hour.finite() {
            lemma_difference_is_near(short_rate, long_rate);
        }
    }
}

/// The two offers of a contract against its coin earn what it settles at: a
/// negative rate is paid to who holds the contract, a positive one to who is short
/// of it. Only one of the two is made.
pub proof fn lemma_spot_offer_pays(
    held: Option<Opportunity>,
    sold: Option<Opportunity>,
    token: Token,
    perpetual: Leg,
    spot: Leg,
)
    requires
        is_spot_short(held, token, perpetual, spot),
        is_spot_long(sold, token, perpetual, spot),
        has_rate(perpetual),
    ensures
        held is Some <==> perpetual.rate.lt_spec(Double { bits: ZERO }),
        sold is Some <==> positive(perpetual.rate),
        held matches Some(offer) ==> {
            &&& offer.long.copies(perpetual)
            &&& offer.short.market@ == spot.market@
            &&& (Double { bits: ZERO }).le_spec(offer.funding_per_hour)
            &&& offer.funding_per_hour.finite() ==> fine() * size(
                offer.funding_per_hour.value() * perpetual.interval_hours.value() + perpetual.rate.value() * one(),
            ) <= size(perpetual.rate.value()) * one() + fine() * perpetual.interval_hours.value()
        },
        sold matches Some(offer) ==> {
            &&& offer.short.copies(perpetual)
            &&& offer.long.market@ == spot.market@
            &&& (Double { bits: ZERO }).le_spec(offer.funding_per_hour)
            &&& offer.funding_per_hour.finite() ==> fine() * size(
                offer.funding_per_hour.value() * perpetual.interval_hours.value() - perpetual.rate.value() * one(),
            ) <= size(perpetual.rate.value()) * one() + fine() * perpetual.interval_hours.value()
        },
{
    let rate = perpetual.rate;
    let minus = rate.neg_spec();
    lemma_neg_turns(rate);
    lemma_quotient_sign(rate, perpetual.interval_hours);
    lemma_quotient_sign(minus, perpetual.interval_hours);
    if held is Some {
        let f = (held->0).funding_per_hour;
        if f.finite() {
            lemma_quotient_is_near(minus, perpetual.interval_hours);
            let x = perpetual.interval_hours.value();
            assert(f.value() * x - minus.value() * one() == f.value() * x + rate.value() * one()) by (nonlinear_arith)
                requires
                    minus.value() == -rate.value(),
            ;
        }
    }
    if sold is Some {
        let f = (sold->0).funding_per_hour;
        if f.finite() {
            lemma_quotient_is_near(rate, perpetual.interval_hours);
        }
    }
}

/// The hours until a route has earned its fees: over them its funding adds up to
/// what the spread leaves of the fees, up to rounding. A route that pays nothing has
/// none, and neither has one whose spread covers the fees.
pub proof fn lemma_funding_pays_the_fees(funding_per_hour: Double, fees: Double, spread_vs_average: Double)
    requires
        funding_per_hour.finite(),
        sized(fees, 200),
        sized(funding_per_hour, 200) || funding_per_hour.le_spec(Double { bits: ZERO }),
        spread_vs_average.finite(),
    ensures
        ({
            let hours = hours_to_break_even(funding_per_hour, fees, spread_vs_average);
            let zero = Double { bits: ZERO };
            &&& zero.le_spec(hours)
            &&& funding_per_hour.le_spec(zero) ==> hours == zero
            &&& fees.le_spec(spread_vs_average) ==> hours.zero()
            &&& positive(funding_per_hour) && spread_vs_average.zero() ==> about(
                hours,
                fees.value() * one(),
                funding_per_hour.value(),
                4,
            )
            &&& positive(funding_per_hour) && spread_vs_average.lt_spec(fees) && hours.finite() ==> {
                let owed = fees.value() - spread_vs_average.value();
                fine() * size(hours.value() * funding_per_hour.value() - owed * one()) <= 3 * (owed * one()) + fine()
                    * funding_per_hour.value()
            }
        }),
{
    let zero = Double { bits: ZERO };
    let hours = hours_to_break_even(funding_per_hour, fees, spread_vs_average);
    let owed = fees.sub_spec(spread_vs_average);
    lemma_neg_turns(spread_vs_average);
    assert(!owed.nan());
    lemma_sub_tells_the_larger(fees, spread_vs_average);
    if positive(funding_per_hour) {
        let due = owed.max_spec(zero);
        lemma_quotient_sign(due, funding_per_hour);
        if spread_vs_average.zero() {
            assert(fees.value() + spread_vs_average.neg_spec().value() == fees.value()) by {
                assert(units(0) == 0);
            }
            lemma_add_zero(fees, spread_vs_average.neg_spec());
            lemma_about_itself(fees);
            lemma_about_itself(funding_per_hour);
            assert(due.magnitude() == fees.magnitude()) by {
                if fees.zero() {
                    assert(units(0) == 0);
                }
            }
            assert(due == fees) by {
                assert(!due.negative());
            }
            lemma_about_quotient(
                fees,
                funding_per_hour,
                fees.value(),
                1,
                funding_per_hour.value(),
                1,
                0,
                0,
                200,
                200,
            );
            assert(fees.value() * 1 * one() == fees.value() * one() && 1 * funding_per_hour.value()
                == funding_per_hour.value()) by (nonlinear_arith);
        }
        if spread_vs_average.lt_spec(fees) && hours.finite() {
            lemma_order_is_numeric(spread_vs_average, fees);
            assert(due == owed);
            lemma_gap_over(fees, spread_vs_average, funding_per_hour);
        }
    }
}

/// The taker fee of an exchange, in parts of two hundred thousand: five basis points
/// at Binance, five and a half elsewhere.
pub open spec fn fee_points(exchange: Seq<char>) -> int {
    if exchange == "Binance"@ {
        100
    } else {
        110
    }
}

/// The fees of an offer are those of opening and closing both legs, whichever of
/// the two is long, and its yearly return is that of all the hours of a year.
pub proof fn lemma_offer_counts_both_ways_and_all_hours(
    offer: Opportunity,
    token: Token,
    long: Leg,
    short: Leg,
    funding_per_hour: Double,
)
    requires
        is_offer(offer, token, long, short, funding_per_hour),
        sized(funding_per_hour, 200),
    ensures
        about(
            offer.fees,
            2 * one() * (fee_points(long.exchange@) * one() + fee_points(short.exchange@) * one()),
            200_000 * one(),
            6,
        ),
        about(offer.apy, funding_per_hour.value() * (8760 * one()), one(), 2),
{
    let a = taker_fee(long.exchange@);
    let b = taker_fee(short.exchange@);
    let x = fee_points(long.exchange@) * one();
    let y = fee_points(short.exchange@) * one();
    let two = Double { bits: TWO };
    let year = Double { bits: YEAR_HOURS };
    let u = one();
    lemma_pow2_pos(ONE_EXPONENT as nat);
    lemma_constants();
    lemma_about_itself(two);
    lemma_about_itself(year);
    lemma_about_itself(funding_per_hour);
    lemma_about_same_sum(a, b, x, y, 200_000, 1, 1, 11);
    lemma_about_product(two, a.add_spec(b), two.value(), 1, x + y, 200_000, 0, 4, 1, 12);
    assert(1 * 200_000 * u == 200_000 * u && 1 * 1 * u == u) by (nonlinear_arith);
    assert(two.value() * (x + y) == 2 * u * (x + y)) by (nonlinear_arith)
        requires
            two.value() == 2 * u,
    ;
    lemma_about_product(funding_per_hour, year, funding_per_hour.value(), 1, year.value(), 1, 0, 0, 200, 14);
}

proof fn lemma_scaled_order(a: int, b: int, e: int)
    requires
        a <= b,
        e >= 0,
    ensures
        a * e <= b * e,
{
    assert(a * e <= b * e) by (nonlinear_arith)
        requires
            a <= b,
            e >= 0,
    ;
}

/// What the fees, two and the hours of a year come to.
pub proof fn lemma_constants()
    ensures
        sized(Double { bits: BINANCE_FEE }, 11),
        sized(Double { bits: BYBIT_FEE }, 11),
        sized(Double { bits: TWO }, 1),
        sized(Double { bits: YEAR_HOURS }, 14),
        about(Double { bits: BINANCE_FEE }, 100 * one(), 200_000, 1),
        about(Double { bits: BYBIT_FEE }, 110 * one(), 200_000, 1),
        (Double { bits: TWO }).value() == 2 * one(),
        (Double { bits: YEAR_HOURS }).value() == 8760 * one(),
{
    lemma_units_at(BINANCE_FEE as nat, 1011, (BINANCE_FEE - 1011 * BINADE) as nat);
    lemma_units_at(BYBIT_FEE as nat, 1011, (BYBIT_FEE - 1011 * BINADE) as nat);
    lemma_units_at(TWO as nat, 1023, BINADE as nat);
    lemma_units_at(YEAR_HOURS as nat, 1035, (YEAR_HOURS - 1035 * BINADE) as nat);
    lemma2_to64_rest();
    lemma2_to64();
    lemma_pow2_adds(52, 1011);
    lemma_pow2_adds(53, 1011);
    lemma_pow2_adds(52, 1023);
    lemma_pow2_unfold(1075);
    lemma_pow2_adds(39, 1035);
    lemma_pow2_adds(14, 1074);
    lemma_pow2_strictly_increases(1064, 1085);
    lemma_pow2_strictly_increases(1073, 1074);
    lemma_pow2_strictly_increases(1060, 1074);
    lemma_pow2_pos(1011);
    lemma_pow2_pos(1035);
    lemma_pow2_pos(1074);
    let f = (BINANCE_FEE - 1011 * BINADE) as nat;
    let g = (BYBIT_FEE - 1011 * BINADE) as nat;
    let e = pow2(1011);
    assert(BINADE * e <= f * e <= (2 * BINADE) * e && BINADE * e <= g * e <= (2 * BINADE) * e) by (nonlinear_arith)
        requires
            BINADE <= f <= 2 * BINADE,
            BINADE <= g <= 2 * BINADE,
    ;
    lemma_pow2_adds(63, 1011);
    let t = pow2(63) * e;
    assert(t == 0x8000_0000_0000_0000 * e);
    let m = fine() * ((f * e) * 200_000);
    let w = fine() * ((g * e) * 200_000);
    assert(m == (fine() * (f * 200_000)) * e && w == (fine() * (g * 200_000)) * e) by (nonlinear_arith)
        requires
            m == fine() * ((f * e) * 200_000),
            w == fine() * ((g * e) * 200_000),
    ;
    assert((fine() + 1) * (100 * t) == ((fine() + 1) * (100 * 0x8000_0000_0000_0000)) * e && (fine() - 1) * (100 * t)
        == ((fine() - 1) * (100 * 0x8000_0000_0000_0000)) * e && (fine() + 1) * (110 * t) == ((fine() + 1) * (110
        * 0x8000_0000_0000_0000)) * e && (fine() - 1) * (110 * t) == ((fine() - 1) * (110 * 0x8000_0000_0000_0000))
        * e) by (nonlinear_arith)
        requires
            t == 0x8000_0000_0000_0000 * e,
    ;
    assert(f == 4611686018427388 && g == 5072854620270127);
    assert(fine() * (f * 200_000) <= (fine() + 1) * (100 * 0x8000_0000_0000_0000) && (fine() - 1) * (100
        * 0x8000_0000_0000_0000) <= fine() * (f * 200_000) && fine() * (g * 200_000) <= (fine() + 1) * (110
        * 0x8000_0000_0000_0000) && (fine() - 1) * (110 * 0x8000_0000_0000_0000) <= fine() * (g * 200_000))
        by (nonlinear_arith)
        requires
            f == 4611686018427388,
            g == 5072854620270127,
            fine() == 0x20_0000_0000_0000,
    ;
    lemma_scaled_order(fine() * (f * 200_000), (fine() + 1) * (100 * 0x8000_0000_0000_0000), e as int);
    lemma_scaled_order((fine() - 1) * (100 * 0x8000_0000_0000_0000), fine() * (f * 200_000), e as int);
    lemma_scaled_order(fine() * (g * 200_000), (fine() + 1) * (110 * 0x8000_0000_0000_0000), e as int);
    lemma_scaled_order((fine() - 1) * (110 * 0x8000_0000_0000_0000), fine() * (g * 200_000), e as int);
    let y = (YEAR_HOURS - 1035 * BINADE) as nat;
    let h = pow2(1035);
    assert(y == 8760 * pow2(39));
    assert(y * h == 8760 * (pow2(39) * h)) by (nonlinear_arith)
        requires
            y == 8760 * pow2(39),
    ;
}

} // verus!
