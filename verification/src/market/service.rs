//! The market data of the desk: what is asked of the exchanges, and what their
//! answers say.

use crate::config::Config;
use crate::failure::{Failure, Reason};
use crate::json::{number, number_or, Json, Text};
use crate::market::projection::{
    averageable, best_projection, cross_funding_projection, has_modest_rates, hours_in_shift,
    lemma_a_route_that_never_pays_is_worth_nothing, lemma_only_settlement_is_spread,
    lemma_projection_follows_the_rates, modest, period_start, projected_rate, same_schedule, time_weighted_average,
    weighted_mean, EIGHT_HOURS_MILLIS, HOUR_MILLIS,
};
use crate::market::routes::{
    executable_spread, has_quotes, has_rate, is_offer, lemma_spread_tells_the_gap, route_key, route_leg_key,
};
use crate::market::scan::{counts, find_last, reprojected, Markets};
use crate::market::search::{is_answer, is_sound, ScanRun};
use crate::models::{Leg, OpportunitiesResponse, Opportunity, Position, PositionLeg, Token};
use crate::num::about::{fine, lemma_quotient_is_near, lemma_rates_apart, one};
use crate::num::constants::{ONE, SIX, TWENTY_FOUR, YEAR_HOURS, ZERO};
use crate::num::double::size;
use crate::num::order::{
    lemma_neg_turns, lemma_one, lemma_one_is_neutral, lemma_product_sign, lemma_quotient_monotone,
    lemma_quotient_sign, lemma_sub_monotone, positive,
};
use crate::num::Double;
use crate::signing::{binance_url, bybit_signature, sign_bybit, signed_url};
use crate::text::{decimal, int_text, join, lower, same, to_ascii_lowercase};
use crate::trading::orders::{accepted, is_accepted};
use crate::trading::paper::MarketMetrics;
use vstd::prelude::*;
use vstd::string::StringExecFns;

verus! {

/// The last leg of a name.
pub open spec fn leg_named(legs: Seq<Leg>, name: Seq<char>) -> Option<int>
    decreases legs.len(),
{
    if legs.len() == 0 {
        None
    } else if route_key(legs.last().exchange@, legs.last().market@, legs.last().symbol@) == name {
        Some(legs.len() - 1)
    } else {
        leg_named(legs.drop_last(), name)
    }
}

fn find_named(legs: &Vec<Leg>, name: &str) -> (r: Option<usize>)
    ensures
        match r {
            Some(i) => i < legs@.len() && leg_named(legs@, name@) == Some(i as int),
            None => leg_named(legs@, name@) is None,
        },
{
    let mut n: usize = legs.len();
    proof {
        assert(legs@.take(n as int) =~= legs@);
    }
    while n > 0
        invariant
            n <= legs@.len(),
            leg_named(legs@, name@) == leg_named(legs@.take(n as int), name@),
        decreases n,
    {
        proof {
            assert(legs@.take(n as int).last() == legs@[n - 1]);
            assert(legs@.take(n as int).drop_last() =~= legs@.take(n - 1));
        }
        let leg = &legs[n - 1];
        let own = route_leg_key(leg.exchange.as_str(), leg.market.as_str(), leg.symbol.as_str());
        if same(own.as_str(), name) {
            return Some(n - 1);
        }
        n = n - 1;
    }
    None
}

/// The market data of a held leg.
pub open spec fn data_of(legs: Seq<Leg>, held: PositionLeg) -> Option<int> {
    leg_named(legs, route_key(held.exchange@, held.market@, held.symbol@))
}

/// Whether the answer is the market data of the legs of a position.
pub open spec fn held(r: Result<(Leg, Leg), Failure>, legs: Seq<Leg>, position: Position) -> bool {
    match (data_of(legs, position.long), data_of(legs, position.short)) {
        (None, _) => r matches Err(f) && f.reason is LongData && f.cause is None,
        (Some(_), None) => r matches Err(f) && f.reason is ShortData && f.cause is None,
        (Some(l), Some(s)) => r matches Ok(pair) && pair.0.copies(legs[l]) && pair.1.copies(legs[s]),
    }
}

/// What has been seen of the markets.
pub struct MarketService {
    pub route_legs: Vec<Leg>,
}

/// What has to be found out before a held route can be valued.
#[derive(Clone, Copy, Debug, PartialEq, Eq, Structural)]
pub enum RouteNeed {
    /// The average funding rates of both legs.
    Averages,
    /// What it costs to borrow the coin of the short leg.
    BorrowRate,
    /// Nothing.
    Nothing,
}

/// What was found out about a held route.
#[derive(Clone, Copy, Debug, PartialEq, Eq, Structural)]
pub enum RouteFacts {
    Averages(Double, Double),
    BorrowRate(Double),
    Nothing,
}

/// What has to be found out about a route; `None` for one that is never held.
pub open spec fn need_of(long: Leg, short: Leg) -> Option<RouteNeed> {
    if long.market@ == "perpetual"@ && short.market@ == "perpetual"@ {
        Some(RouteNeed::Averages)
    } else if long.market@ == "perpetual"@ && short.market@ == "spot"@ {
        Some(RouteNeed::BorrowRate)
    } else if long.market@ == "spot"@ && short.market@ == "perpetual"@ {
        Some(RouteNeed::Nothing)
    } else {
        None
    }
}

/// What a held route pays per hour.
pub open spec fn held_funding(long: Leg, short: Leg, facts: RouteFacts, now: i64) -> Double {
    match facts {
        RouteFacts::Averages(long_average, short_average) => match best_projection(
            long,
            short,
            now as int,
            long_average,
            short_average,
        ) {
            Some(best) => best.0,
            None => Double { bits: ZERO },
        },
        RouteFacts::BorrowRate(rate) => long.rate.neg_spec().div_spec(long.interval_hours).sub_spec(rate),
        RouteFacts::Nothing => short.rate.div_spec(short.interval_hours),
    }
}

/// Whether a held route is valued at what it pays and at its gap.
pub open spec fn values(m: MarketMetrics, long: Leg, short: Leg, facts: RouteFacts, now: i64) -> bool {
    &&& m.funding_per_hour == held_funding(long, short, facts, now)
    &&& m.spread == executable_spread(long, short)
    &&& m.apy == m.funding_per_hour.mul_spec(Double { bits: YEAR_HOURS })
}

impl MarketService {
    pub fn new() -> (service: MarketService)
        ensures
            service.route_legs@ == Seq::<Leg>::empty(),
    {
        MarketService { route_legs: Vec::new() }
    }

    /// The answer to a search that has found out everything.
    pub fn opportunities(run: ScanRun, now: i64) -> (response: OpportunitiesResponse)
        requires
            run.wf(),
            run.stage is Ready,
        ensures
            is_answer(response, run, now),
            is_sound(response),
    {
        run.finish(now)
    }

    /// Remembers the legs of a scan: of several of a list with one base only the
    /// last.
    pub fn remember(&mut self, markets: &Markets)
        ensures
            remembers(final(self).route_legs@, *markets),
    {
        let mut legs: Vec<Leg> = Vec::new();
        collect(&mut legs, &markets.binance);
        let ghost first = legs@;
        collect(&mut legs, &markets.bybit);
        let ghost second = legs@;
        collect(&mut legs, &markets.binance_spot);
        let ghost third = legs@;
        collect(&mut legs, &markets.bybit_spot);
        proof {
            assert(collected(first, Seq::empty(), markets.binance@, markets.binance@.len() as int));
            assert(collected(second, first, markets.bybit@, markets.bybit@.len() as int));
            assert(collected(third, second, markets.binance_spot@, markets.binance_spot@.len() as int));
            assert(collected(legs@, third, markets.bybit_spot@, markets.bybit_spot@.len() as int));
        }
        self.route_legs = legs;
    }

    /// The market data of the legs of a position.
    pub fn held_legs(&self, position: &Position) -> (r: Result<(Leg, Leg), Failure>)
        ensures
            held(r, self.route_legs@, *position),
    {
        let long_name = route_leg_key(
            position.long.exchange.as_str(),
            position.long.market.as_str(),
            position.long.symbol.as_str(),
        );
        let long = match find_named(&self.route_legs, long_name.as_str()) {
            Some(i) => self.route_legs[i].clone(),
            None => return Err(Failure::new(Reason::LongData)),
        };
        let short_name = route_leg_key(
            position.short.exchange.as_str(),
            position.short.market.as_str(),
            position.short.symbol.as_str(),
        );
        let short = match find_named(&self.route_legs, short_name.as_str()) {
            Some(i) => self.route_legs[i].clone(),
            None => return Err(Failure::new(Reason::ShortData)),
        };
        Ok((long, short))
    }

    /// What has to be found out before a held route can be valued.
    pub fn route_need(long: &Leg, short: &Leg) -> (r: Result<RouteNeed, Failure>)
        ensures
            match need_of(*long, *short) {
                Some(need) => r == Ok::<RouteNeed, Failure>(need),
                None => r matches Err(f) && f.reason is HeldRoute && f.cause is None,
            },
    {
        let long_perpetual: bool = same(long.market.as_str(), "perpetual");
        let short_perpetual: bool = same(short.market.as_str(), "perpetual");
        if long_perpetual && short_perpetual {
            return Ok(RouteNeed::Averages);
        }
        if long_perpetual && same(short.market.as_str(), "spot") {
            return Ok(RouteNeed::BorrowRate);
        }
        if same(long.market.as_str(), "spot") && short_perpetual {
            return Ok(RouteNeed::Nothing);
        }
        Err(Failure::new(Reason::HeldRoute))
    }

    /// What a held route pays and what its gap is.
    pub fn position_market_metrics(long: &Leg, short: &Leg, facts: RouteFacts, now: i64) -> (r: Result<
        MarketMetrics,
        Failure,
    >)
        ensures
            if long.ask.le_spec(Double { bits: ZERO }) {
                r matches Err(f) && f.reason is LongAsk && f.cause is None
            } else {
                r matches Ok(m) && values(m, *long, *short, facts, now)
            },
    {
        let funding_per_hour = match facts {
            RouteFacts::Averages(long_average, short_average) => match cross_funding_projection(
                long,
                short,
                now,
                long_average,
                short_average,
            ) {
                Some(best) => best.0,
                None => Double { bits: ZERO },
            },
            RouteFacts::BorrowRate(rate) => long.rate.neg().div(long.interval_hours).sub(rate),
            RouteFacts::Nothing => short.rate.div(short.interval_hours),
        };
        if long.ask.le(Double { bits: ZERO }) {
            return Err(Failure::new(Reason::LongAsk));
        }
        let spread = short.bid.sub(long.ask).div(long.ask);
        Ok(
            MarketMetrics {
                funding_per_hour,
                spread,
                apy: funding_per_hour.mul(Double { bits: YEAR_HOURS }),
            },
        )
    }

    /// An offer at fresh quotes of its legs.
    pub fn refresh_opportunity_quotes(opportunity: &Opportunity, long: Leg, short: Leg) -> (r: Result<
        Opportunity,
        Failure,
    >)
        ensures
            if long.ask.le_spec(Double { bits: ZERO }) || short.bid.le_spec(Double { bits: ZERO }) {
                r matches Err(f) && f.reason is QuoteUnavailable && f.cause is None
            } else {
                &&& r matches Ok(refreshed)
                &&& refreshed == (Opportunity {
                    token: refreshed.token,
                    long,
                    short,
                    spread: executable_spread(long, short),
                    ..*opportunity
                })
                &&& refreshed.token.copies(opportunity.token)
            },
    {
        if long.ask.le(Double { bits: ZERO }) || short.bid.le(Double { bits: ZERO }) {
            return Err(Failure::new(Reason::QuoteUnavailable));
        }
        let mut refreshed = opportunity.clone();
        refreshed.spread = short.bid.sub(long.ask).div(long.ask);
        refreshed.long = long;
        refreshed.short = short;
        Ok(refreshed)
    }
}

/// Whether legs are others with those of a list added: of several with one base
/// only the last.
pub open spec fn collected(new: Seq<Leg>, old: Seq<Leg>, list: Seq<Leg>, n: int) -> bool
    decreases n,
{
    if n <= 0 {
        new == old
    } else if counts(list, n - 1) {
        new.len() > 0 && new.last().copies(list[n - 1]) && collected(new.drop_last(), old, list, n - 1)
    } else {
        collected(new, old, list, n - 1)
    }
}

fn collect(legs: &mut Vec<Leg>, list: &Vec<Leg>)
    ensures
        collected(final(legs)@, old(legs)@, list@, list@.len() as int),
{
    let ghost at_first = legs@;
    let mut i: usize = 0;
    while i < list.len()
        invariant
            i <= list@.len(),
            collected(legs@, at_first, list@, i as int),
        decreases list@.len() - i,
    {
        let ghost before = legs@;
        let is_last: bool = match find_last(list, list[i].base.as_str()) {
            Some(k) => k == i,
            None => false,
        };
        if is_last {
            legs.push(list[i].clone());
            proof {
                assert(legs@.drop_last() =~= before);
            }
        }
        i = i + 1;
    }
}

/// Whether legs are those of a scan.
pub open spec fn remembers(legs: Seq<Leg>, markets: Markets) -> bool {
    exists|first: Seq<Leg>, second: Seq<Leg>, third: Seq<Leg>|
        #[trigger] collected(first, Seq::empty(), markets.binance@, markets.binance@.len() as int)
            && #[trigger] collected(second, first, markets.bybit@, markets.bybit@.len() as int)
            && #[trigger] collected(
            third,
            second,
            markets.binance_spot@,
            markets.binance_spot@.len() as int,
        ) && collected(legs, third, markets.bybit_spot@, markets.bybit_spot@.len() as int)
}

/// What Binance asks per hour for lending an asset.
pub fn binance_borrow_rate(answer: &Json, asset: &str) -> (r: Result<Double, Failure>)
    ensures
        match answer.item(0).member("dailyInterestRate"@).amount() {
            Some(daily) => r == Ok::<Double, Failure>(daily.div_spec(Double { bits: TWENTY_FOUR })),
            None => {
                &&& r matches Err(f)
                &&& f.cause is None
                &&& f.reason matches Reason::NoBorrowRate { exchange, asset: a }
                &&& exchange@ == "Binance"@
                &&& a@ == asset@
            },
        },
{
    match number(answer.nth(0).get("dailyInterestRate")) {
        Some(daily) => Ok(daily.div(Double { bits: TWENTY_FOUR })),
        None => Err(
            Failure::new(
                Reason::NoBorrowRate { exchange: "Binance".to_owned(), asset: asset.to_owned() },
            ),
        ),
    }
}

/// What Bybit asks per hour for lending an asset.
pub fn bybit_borrow_rate(answer: &Json, asset: &str) -> (r: Result<Double, Failure>)
    ensures
        if !accepted(*answer) {
            &&& r matches Err(f)
            &&& f.cause is None
            &&& f.reason matches Reason::BorrowRejected { message }
            &&& message@ == (match answer.member("retMsg"@).string() {
                Some(s) => s,
                None => "unknown error"@,
            })
        } else {
            match answer.member("result"@).member("list"@).item(0).member("hourlyBorrowRate"@).amount() {
                Some(rate) => r == Ok::<Double, Failure>(rate),
                None => {
                    &&& r matches Err(f)
                    &&& f.cause is None
                    &&& f.reason matches Reason::NoBorrowRate { exchange, asset: a }
                    &&& exchange@ == "Bybit"@
                    &&& a@ == asset@
                },
            }
        },
{
    if !is_accepted(answer) {
        let message = match answer.get("retMsg").as_str() {
            Some(s) => s.to_owned(),
            None => "unknown error".to_owned(),
        };
        return Err(Failure::new(Reason::BorrowRejected { message }));
    }
    match number(answer.get("result").get("list").nth(0).get("hourlyBorrowRate")) {
        Some(rate) => Ok(rate),
        None => Err(
            Failure::new(
                Reason::NoBorrowRate { exchange: "Bybit".to_owned(), asset: asset.to_owned() },
            ),
        ),
    }
}

/// Whether an asset can be borrowed on Binance: the answer was not refused and
/// names an amount.
pub fn binance_borrow_available(answer: Option<&Json>) -> (b: bool)
    ensures
        b == (match answer {
            Some(a) => (Double { bits: ZERO }).lt_spec(crate::json::amount_or(a.member("amount"@), ZERO)),
            None => false,
        }),
{
    match answer {
        Some(a) => number_or(a.get("amount"), Double { bits: ZERO }).gt(Double { bits: ZERO }),
        None => false,
    }
}

/// The first offer of a name.
pub open spec fn offer_named(offers: Seq<Opportunity>, id: Seq<char>) -> Option<Opportunity>
    decreases offers.len(),
{
    if offers.len() == 0 {
        None
    } else if offers[0].id@ == id {
        Some(offers[0])
    } else {
        offer_named(offers.drop_first(), id)
    }
}

fn find_offer<'a>(offers: &'a Vec<Opportunity>, id: &str) -> (r: Option<&'a Opportunity>)
    ensures
        offer_named(offers@, id@) == (match r {
            Some(o) => Some(*o),
            None => None,
        }),
{
    let mut i: usize = 0;
    proof {
        assert(offers@.skip(0) =~= offers@);
    }
    while i < offers.len()
        invariant
            i <= offers@.len(),
            offer_named(offers@, id@) == offer_named(offers@.skip(i as int), id@),
        decreases offers@.len() - i,
    {
        proof {
            assert(offers@.skip(i as int)[0] == offers@[i as int]);
            assert(offers@.skip(i as int).drop_first() =~= offers@.skip(i as int + 1));
        }
        if same(offers[i].id.as_str(), id) {
            return Some(&offers[i]);
        }
        i = i + 1;
    }
    None
}

impl MarketService {
    /// The legs of an offer whose history is asked for: a route over two
    /// contracts, or one over a coin.
    pub fn opportunity_history(response: &OpportunitiesResponse, id: &str) -> (r: Result<(Leg, Leg), Failure>)
        ensures
            match offer_named(response.opportunities@ + response.spot_opportunities@, id@) {
                Some(o) => r matches Ok(legs) && legs.0.copies(o.long) && legs.1.copies(o.short),
                None => r matches Err(f) && f.reason is OpportunityGone && f.cause is None,
            },
    {
        proof {
            lemma_offer_in_either(response.opportunities@, response.spot_opportunities@, id@);
        }
        if let Some(o) = find_offer(&response.opportunities, id) {
            return Ok((o.long.clone(), o.short.clone()));
        }
        match find_offer(&response.spot_opportunities, id) {
            Some(o) => Ok((o.long.clone(), o.short.clone())),
            None => Err(Failure::new(Reason::OpportunityGone)),
        }
    }

    /// The legs of a position whose history is asked for.
    pub fn position_history(&self, position: &Position) -> (r: Result<(Leg, Leg), Failure>)
        ensures
            held(r, self.route_legs@, *position),
    {
        self.held_legs(position)
    }

    /// The legs that can be traded: the contracts of both exchanges, and the
    /// coins of Binance.
    pub fn trading_legs(binance: Vec<Leg>, bybit: Vec<Leg>, binance_spot: Vec<Leg>) -> (legs: Vec<Leg>)
        ensures
            legs@ == binance@ + bybit@ + binance_spot@,
    {
        let mut legs = binance;
        let mut second = bybit;
        let mut third = binance_spot;
        legs.append(&mut second);
        legs.append(&mut third);
        legs
    }
}

proof fn lemma_offer_in_either(first: Seq<Opportunity>, second: Seq<Opportunity>, id: Seq<char>)
    ensures
        offer_named(first + second, id) == (match offer_named(first, id) {
            Some(o) => Some(o),
            None => offer_named(second, id),
        }),
    decreases first.len(),
{
    if first.len() == 0 {
        assert(first + second =~= second);
    } else {
        assert((first + second)[0] == first[0]);
        assert((first + second).drop_first() =~= first.drop_first() + second);
        lemma_offer_in_either(first.drop_first(), second, id);
    }
}

/// The query that asks Binance about lending an asset.
pub open spec fn lending_query(asset: Seq<char>, now: i64) -> Seq<char> {
    "asset="@ + asset + "&timestamp="@ + decimal(now as int) + "&recvWindow=10000"@
}

fn write_lending_query(asset: &str, now: i64) -> (query: String)
    ensures
        query@ == lending_query(asset@, now),
{
    let mut query = join("asset=", asset);
    query.append("&timestamp=");
    query.append(int_text(now).as_str());
    query.append("&recvWindow=10000");
    query
}

/// A signed request for what an exchange asks for lending.
pub enum BorrowRequest {
    /// The address of a request to Binance.
    Binance(String),
    /// The path of a request to Bybit, and its signature.
    Bybit(String, String),
}

/// The request for what an exchange asks for lending an asset.
pub fn borrow_rate_request(config: &Config, exchange: &str, asset: &str, now: i64) -> (r: Result<
    BorrowRequest,
    Failure,
>)
    ensures
        if exchange@ == "Binance"@ {
            match config.binance {
                Some(keys) => r matches Ok(BorrowRequest::Binance(url)) && url@ == binance_url(
                    "api.binance.com"@,
                    "/sapi/v1/margin/interestRateHistory"@,
                    lending_query(asset@, now),
                    keys.api_secret@,
                ),
                None => r matches Err(f) && keys_missing(f, exchange@),
            }
        } else if exchange@ == "Bybit"@ {
            match config.bybit {
                Some(keys) => r matches Ok(BorrowRequest::Bybit(path, signed)) && path@
                    == "/v5/spot-margin-trade/interest-rate-history?currency="@ + asset@ && signed@
                    == bybit_signature(keys.api_secret@, keys.api_key@, now, "currency="@ + asset@),
                None => r matches Err(f) && keys_missing(f, exchange@),
            }
        } else {
            r matches Err(f) && f.reason is BorrowExchange && f.cause is None
        },
{
    if same(exchange, "Binance") {
        return match &config.binance {
            Some(keys) => Ok(
                BorrowRequest::Binance(
                    signed_url(
                        "api.binance.com",
                        "/sapi/v1/margin/interestRateHistory",
                        write_lending_query(asset, now).as_str(),
                        keys.api_secret.as_str(),
                    ),
                ),
            ),
            None => Err(Failure::new(Reason::CredentialsMissing { exchange: exchange.to_owned() })),
        };
    }
    if same(exchange, "Bybit") {
        return match &config.bybit {
            Some(keys) => Ok(
                BorrowRequest::Bybit(
                    join("/v5/spot-margin-trade/interest-rate-history?currency=", asset),
                    sign_bybit(
                        keys.api_secret.as_str(),
                        keys.api_key.as_str(),
                        now,
                        join("currency=", asset).as_str(),
                    ),
                ),
            ),
            None => Err(Failure::new(Reason::CredentialsMissing { exchange: exchange.to_owned() })),
        };
    }
    Err(Failure::new(Reason::BorrowExchange))
}

/// Whether a failure says that an exchange's keys are missing.
pub open spec fn keys_missing(failure: Failure, exchange: Seq<char>) -> bool {
    &&& failure.cause is None
    &&& failure.reason matches Reason::CredentialsMissing { exchange: e }
    &&& e@ == exchange
}

/// The address that asks Binance how much of an asset it lends.
pub fn borrow_available_url(config: &Config, asset: &str, now: i64) -> (r: Result<String, Failure>)
    ensures
        match config.binance {
            Some(keys) => r matches Ok(url) && url@ == binance_url(
                "api.binance.com"@,
                "/sapi/v1/margin/maxBorrowable"@,
                lending_query(asset@, now),
                keys.api_secret@,
            ),
            None => r matches Err(f) && keys_missing(f, "Binance"@),
        },
{
    match &config.binance {
        Some(keys) => Ok(
            signed_url(
                "api.binance.com",
                "/sapi/v1/margin/maxBorrowable",
                write_lending_query(asset, now).as_str(),
                keys.api_secret.as_str(),
            ),
        ),
        None => Err(Failure::new(Reason::CredentialsMissing { exchange: "Binance".to_owned() })),
    }
}

/// A stream of quotes: its address, and what is sent to subscribe.
pub struct QuoteStream {
    pub url: String,
    pub subscription: Option<Json>,
}

/// The message that subscribes to the best quotes of a symbol.
pub open spec fn subscribes(message: Json, symbol: Seq<char>) -> bool {
    &&& message is Object
    &&& message->Object_0@.len() == 2
    &&& message->Object_0@[0].0@ == "args"@
    &&& message->Object_0@[1].0@ == "op"@
    &&& message->Object_0@[1].1.string() == Some("subscribe"@)
    &&& message->Object_0@[0].1.elements().len() == 1
    &&& message->Object_0@[0].1.elements()[0].string() == Some("orderbook.1."@ + symbol)
}

/// The stream of quotes of a leg: Binance has one for each symbol, Bybit one for
/// each market, which is subscribed to.
pub fn quote_stream(leg: &Leg) -> (r: Result<QuoteStream, Failure>)
    ensures
        match (stream_base(leg.exchange@, leg.market@), leg.exchange@ == "Binance"@) {
            (None, _) => r matches Err(f) && f.reason is StreamRoute && f.cause is None,
            (Some(base), true) => r matches Ok(s) && s.url@ == base + lower(leg.symbol@) + "@bookTicker"@
                && s.subscription is None,
            (Some(base), false) => r matches Ok(s) && s.url@ == base && s.subscription is Some && subscribes(
                s.subscription->0,
                leg.symbol@,
            ),
        },
{
    let exchange = leg.exchange.as_str();
    let market = leg.market.as_str();
    let perpetual: bool = same(market, "perpetual");
    if !perpetual && !same(market, "spot") {
        return Err(Failure::new(Reason::StreamRoute));
    }
    if same(exchange, "Binance") {
        let mut url = if perpetual {
            "wss://fstream.binance.com/ws/".to_owned()
        } else {
            "wss://stream.binance.com:9443/ws/".to_owned()
        };
        url.append(to_ascii_lowercase(leg.symbol.as_str()).as_str());
        url.append("@bookTicker");
        return Ok(QuoteStream { url, subscription: None });
    }
    if same(exchange, "Bybit") {
        let url = if perpetual {
            "wss://stream.bybit.com/v5/public/linear".to_owned()
        } else {
            "wss://stream.bybit.com/v5/public/spot".to_owned()
        };
        let mut args: Vec<Json> = Vec::new();
        args.push(
            Json::Text(
                Text { text: join("orderbook.1.", leg.symbol.as_str()), number: None, integer: None },
            ),
        );
        let mut members: Vec<(String, Json)> = Vec::new();
        members.push(("args".to_owned(), Json::List(args)));
        members.push(
            (
                "op".to_owned(),
                Json::Text(Text { text: "subscribe".to_owned(), number: None, integer: None }),
            ),
        );
        return Ok(QuoteStream { url, subscription: Some(Json::Object(members)) });
    }
    Err(Failure::new(Reason::StreamRoute))
}

/// Where an exchange streams the quotes of one of its markets.
pub open spec fn stream_base(exchange: Seq<char>, market: Seq<char>) -> Option<Seq<char>> {
    if exchange == "Binance"@ && market == "perpetual"@ {
        Some("wss://fstream.binance.com/ws/"@)
    } else if exchange == "Binance"@ && market == "spot"@ {
        Some("wss://stream.binance.com:9443/ws/"@)
    } else if exchange == "Bybit"@ && market == "perpetual"@ {
        Some("wss://stream.bybit.com/v5/public/linear"@)
    } else if exchange == "Bybit"@ && market == "spot"@ {
        Some("wss://stream.bybit.com/v5/public/spot"@)
    } else {
        None
    }
}

/// The half-life of the averages of gaps and rates: six hours.
pub const AVERAGE_HALF_LIFE_HOURS: u64 = SIX;

/// The average of points at that half-life.
pub open spec fn gap_average(points: Seq<(i64, Double)>, weights: Seq<Double>) -> Option<Double> {
    if averageable(points, Double { bits: AVERAGE_HALF_LIFE_HOURS }) {
        weighted_mean(points, weights)
    } else {
        None
    }
}

/// The average of the gaps of a route; there has to be one.
pub fn spread_average(gaps: &Vec<(i64, Double)>, weights: &Vec<Double>) -> (r: Result<Double, Failure>)
    requires
        gaps@.len() == weights@.len(),
    ensures
        match gap_average(gaps@, weights@) {
            Some(x) => r == Ok::<Double, Failure>(x),
            None => r matches Err(f) && f.reason is NoAverage && f.cause is None,
        },
{
    match time_weighted_average(gaps, Double { bits: AVERAGE_HALF_LIFE_HOURS }, weights) {
        Some(x) => Ok(x),
        None => Err(Failure::new(Reason::NoAverage)),
    }
}

/// The average funding rate of a leg: its present rate where there is no
/// average.
pub fn weighted_funding_average(leg: &Leg, rates: &Vec<(i64, Double)>, weights: &Vec<Double>) -> (r: Double)
    requires
        rates@.len() == weights@.len(),
    ensures
        r == (match gap_average(rates@, weights@) {
            Some(x) => x,
            None => leg.rate,
        }),
{
    match time_weighted_average(rates, Double { bits: AVERAGE_HALF_LIFE_HOURS }, weights) {
        Some(x) => x,
        None => leg.rate,
    }
}

/// Two held contracts that settle once in the eight hours that are running, at
/// their end, pay the rate of the short leg less that of the long leg, spread over
/// the hours until then; nothing where that is not positive.
pub proof fn lemma_held_contracts_pay_their_difference(
    m: MarketMetrics,
    long: Leg,
    short: Leg,
    long_average: Double,
    short_average: Double,
    now: i64,
)
    requires
        values(m, long, short, RouteFacts::Averages(long_average, short_average), now),
        long.market@ == "perpetual"@,
        short.market@ == "perpetual"@,
        long.next_funding_time == period_start(now as int, EIGHT_HOURS_MILLIS as int) + EIGHT_HOURS_MILLIS,
        short.next_funding_time == long.next_funding_time,
        long.next_funding_time > 0,
        modest(long.rate),
        modest(short.rate),
    ensures
        ({
            let n = hours_in_shift(now as int);
            let gap = short.rate.value() - long.rate.value();
            &&& short.rate.le_spec(long.rate) ==> m.funding_per_hour == (Double { bits: ZERO })
            &&& n == 1 && long.rate.lt_spec(short.rate) ==> positive(m.funding_per_hour)
            &&& long.rate.lt_spec(short.rate) ==> m.funding_per_hour.finite() && fine() * size(
                m.funding_per_hour.value() * (n * one()) - gap * one(),
            ) <= 3 * (gap * one()) + fine() * (n * one())
        }),
{
    lemma_only_settlement_is_spread(long, short, now as int, long_average, short_average);
}

/// Two held contracts are worth at least as much where the short leg is paid more
/// or the long leg pays less, and never less than nothing.
pub proof fn lemma_held_funding_follows_the_rates(
    m: MarketMetrics,
    better: MarketMetrics,
    long: Leg,
    short: Leg,
    long_average: Double,
    short_average: Double,
    lower: Leg,
    higher: Leg,
    lower_average: Double,
    higher_average: Double,
    now: i64,
)
    requires
        values(m, long, short, RouteFacts::Averages(long_average, short_average), now),
        values(better, lower, higher, RouteFacts::Averages(lower_average, higher_average), now),
        has_modest_rates(long, long_average),
        has_modest_rates(short, short_average),
        has_modest_rates(lower, lower_average),
        has_modest_rates(higher, higher_average),
        same_schedule(long, lower),
        same_schedule(short, higher),
        lower.rate.le_spec(long.rate),
        lower_average.le_spec(long_average),
        short.rate.le_spec(higher.rate),
        short_average.le_spec(higher_average),
    ensures
        m.funding_per_hour.le_spec(better.funding_per_hour),
        (Double { bits: ZERO }).le_spec(m.funding_per_hour),
        (Double { bits: ZERO }).le_spec(m.apy),
{
    lemma_projection_follows_the_rates(
        long,
        short,
        now as int,
        long_average,
        short_average,
        lower,
        higher,
        lower_average,
        higher_average,
    );
    lemma_product_sign(m.funding_per_hour, Double { bits: YEAR_HOURS });
}

/// Two held contracts pay something only where at one of the hours to come the
/// short leg settles higher than the long leg.
pub proof fn lemma_held_contracts_that_never_pay(
    m: MarketMetrics,
    long: Leg,
    short: Leg,
    long_average: Double,
    short_average: Double,
    now: i64,
)
    requires
        values(m, long, short, RouteFacts::Averages(long_average, short_average), now),
        has_modest_rates(long, long_average),
        has_modest_rates(short, short_average),
        forall|i: int|
            1 <= i <= hours_in_shift(now as int) ==> projected_rate(
                short,
                period_start(now as int, HOUR_MILLIS as int) + i * HOUR_MILLIS,
                short_average,
            ).le_spec(
                projected_rate(
                    long,
                    #[trigger] (period_start(now as int, HOUR_MILLIS as int) + i * HOUR_MILLIS),
                    long_average,
                ),
            ),
    ensures
        m.funding_per_hour == (Double { bits: ZERO }),
{
    lemma_a_route_that_never_pays_is_worth_nothing(long, short, now as int, long_average, short_average);
}

/// A route is worth the same whether it is offered or held: the same funding per
/// hour, the same yearly return and the same gap.
pub proof fn lemma_held_is_valued_as_offered(
    m: MarketMetrics,
    offer: Opportunity,
    found: Opportunity,
    token: Token,
    funding: Double,
    averages: (Double, Double),
    now: i64,
)
    requires
        values(m, found.long, found.short, RouteFacts::Averages(averages.0, averages.1), now),
        is_offer(found, token, found.long, found.short, funding),
        reprojected(offer, found, Some(averages), now),
        has_modest_rates(found.long, averages.0),
        has_modest_rates(found.short, averages.1),
    ensures
        m.funding_per_hour == offer.funding_per_hour,
        m.apy.eq_spec(offer.apy),
        m.spread == offer.spread,
{
    let year = Double { bits: YEAR_HOURS };
    let zero = Double { bits: ZERO };
    lemma_projection_follows_the_rates(
        found.long,
        found.short,
        now as int,
        averages.0,
        averages.1,
        found.long,
        found.short,
        averages.0,
        averages.1,
    );
    lemma_product_sign(m.funding_per_hour, year);
}

/// A held contract against its borrowed coin is paid what it settles at less what
/// the loan costs: nothing else being changed it pays less where the loan costs
/// more or the contract settles higher.
pub proof fn lemma_a_loan_is_paid_for(
    m: MarketMetrics,
    other: MarketMetrics,
    long: Leg,
    dearer: Leg,
    short: Leg,
    rate: Double,
    higher: Double,
    now: i64,
)
    requires
        values(m, long, short, RouteFacts::BorrowRate(rate), now),
        values(other, dearer, short, RouteFacts::BorrowRate(higher), now),
        has_rate(long),
        has_rate(dearer),
        dearer.interval_hours == long.interval_hours,
        long.rate.le_spec(dearer.rate),
        rate.finite(),
        higher.finite(),
        rate.le_spec(higher),
    ensures
        m.funding_per_hour.nan() || other.funding_per_hour.nan() || other.funding_per_hour.le_spec(
            m.funding_per_hour,
        ),
        m.funding_per_hour.finite() ==> {
            let x = long.interval_hours.value();
            let y = one();
            let s = -long.rate.value();
            let l = rate.value();
            fine() * size(m.funding_per_hour.value() * (x * y) - (s * y - l * x) * one()) <= 3 * ((size(s) * y + size(l)
                * x) * one()) + 3 * (fine() * (x * y))
        },
{
    let minus = long.rate.neg_spec();
    let lower = dearer.rate.neg_spec();
    lemma_neg_turns(long.rate);
    lemma_neg_turns(dearer.rate);
    lemma_one();
    lemma_one_is_neutral(rate);
    lemma_quotient_monotone(lower, minus, long.interval_hours);
    if !m.funding_per_hour.nan() && !other.funding_per_hour.nan() {
        lemma_sub_monotone(
            lower.div_spec(long.interval_hours),
            minus.div_spec(long.interval_hours),
            higher,
            rate,
        );
    }
    if m.funding_per_hour.finite() {
        lemma_rates_apart(minus, long.interval_hours, rate, Double { bits: ONE });
    }
}

/// A coin held against its contract is paid what the contract settles at per hour.
pub proof fn lemma_a_held_coin_is_paid_the_rate(m: MarketMetrics, long: Leg, short: Leg, now: i64)
    requires
        values(m, long, short, RouteFacts::Nothing, now),
        has_rate(short),
    ensures
        (Double { bits: ZERO }).le_spec(short.rate) ==> (Double { bits: ZERO }).le_spec(m.funding_per_hour),
        short.rate.le_spec(Double { bits: ZERO }) ==> m.funding_per_hour.le_spec(Double { bits: ZERO }),
        m.funding_per_hour.finite() ==> fine() * size(
            m.funding_per_hour.value() * short.interval_hours.value() - short.rate.value() * one(),
        ) <= size(short.rate.value()) * one() + fine() * short.interval_hours.value(),
{
    lemma_quotient_sign(short.rate, short.interval_hours);
    if m.funding_per_hour.finite() {
        lemma_quotient_is_near(short.rate, short.interval_hours);
    }
}

/// The gap of a held route is how much more its short leg sells for than its long
/// leg costs, as a share of what the long leg costs.
pub proof fn lemma_held_gap(m: MarketMetrics, long: Leg, short: Leg, facts: RouteFacts, now: i64)
    requires
        values(m, long, short, facts, now),
        has_quotes(long),
        has_quotes(short),
    ensures
        !m.spread.nan(),
        long.ask.le_spec(short.bid) ==> (Double { bits: ZERO }).le_spec(m.spread),
        short.bid.le_spec(long.ask) ==> m.spread.le_spec(Double { bits: ZERO }),
        m.spread.finite() ==> {
            let gap = short.bid.value() - long.ask.value();
            fine() * size(m.spread.value() * long.ask.value() - gap * one()) <= 3 * (size(gap) * one()) + fine()
                * long.ask.value()
        },
{
    lemma_spread_tells_the_gap(long, short);
}

} // verus!
