//! A scan of all markets for routes that pay.

use crate::market::projection::{best_projection, cross_funding_projection};
use crate::market::routes::{
    break_even_hours, classify_token, hours_to_break_even, is_classified, is_cross_candidate, is_spot_long,
    is_spot_short, is_spread_offer, is_tradefi, make_cross_candidate_at, make_spot_long_perpetual_short,
    make_spot_short_perpetual_long, make_spread_opportunity, tradefi, SPREAD_OPPORTUNITY_DEVIATION_THRESHOLD,
};
use crate::models::{Leg, Opportunity, Token};
use crate::num::constants::{YEAR_HOURS, ZERO};
use crate::num::Double;
use crate::sorting::{is_stable_order, stable_order};
use crate::text::same;
use vstd::prelude::*;

verus! {

/// The last leg of a base.
pub open spec fn last_of(legs: Seq<Leg>, base: Seq<char>) -> Option<int>
    decreases legs.len(),
{
    if legs.len() == 0 {
        None
    } else if legs.last().base@ == base {
        Some(legs.len() - 1)
    } else {
        last_of(legs.drop_last(), base)
    }
}

pub fn find_last(legs: &Vec<Leg>, base: &str) -> (r: Option<usize>)
    ensures
        match r {
            Some(i) => i < legs@.len() && last_of(legs@, base@) == Some(i as int),
            None => last_of(legs@, base@) is None,
        },
{
    let mut n: usize = legs.len();
    proof {
        assert(legs@.take(n as int) =~= legs@);
    }
    while n > 0
        invariant
            n <= legs@.len(),
            last_of(legs@, base@) == last_of(legs@.take(n as int), base@),
        decreases n,
    {
        proof {
            assert(legs@.take(n as int).last() == legs@[n - 1]);
            assert(legs@.take(n as int).drop_last() =~= legs@.take(n - 1));
        }
        if same(legs[n - 1].base.as_str(), base) {
            return Some(n - 1);
        }
        n = n - 1;
    }
    None
}

/// Whether a leg counts: of several with one base only the last does.
pub open spec fn counts(legs: Seq<Leg>, i: int) -> bool {
    last_of(legs, legs[i].base@) == Some(i)
}

/// How many of the first `n` legs count.
pub open spec fn counted(legs: Seq<Leg>, n: int) -> nat
    decreases n,
{
    if n <= 0 {
        0
    } else {
        counted(legs, n - 1) + if counts(legs, n - 1) {
            1nat
        } else {
            0nat
        }
    }
}

/// The first listed token of a symbol, from the end.
pub open spec fn listed_as(tokens: Seq<Token>, symbol: Seq<char>) -> Option<Token>
    decreases tokens.len(),
{
    if tokens.len() == 0 {
        None
    } else if tokens.last().symbol@ == symbol {
        Some(tokens.last())
    } else {
        listed_as(tokens.drop_last(), symbol)
    }
}

fn find_listed<'a>(tokens: &'a Vec<Token>, symbol: &str) -> (r: Option<&'a Token>)
    ensures
        listed_as(tokens@, symbol@) == (match r {
            Some(t) => Some(*t),
            None => None,
        }),
{
    let mut n: usize = tokens.len();
    proof {
        assert(tokens@.take(n as int) =~= tokens@);
    }
    while n > 0
        invariant
            n <= tokens@.len(),
            listed_as(tokens@, symbol@) == listed_as(tokens@.take(n as int), symbol@),
        decreases n,
    {
        proof {
            assert(tokens@.take(n as int).last() == tokens@[n - 1]);
            assert(tokens@.take(n as int).drop_last() =~= tokens@.take(n - 1));
        }
        if same(tokens[n - 1].symbol.as_str(), symbol) {
            return Some(&tokens[n - 1]);
        }
        n = n - 1;
    }
    None
}

/// A list with one more entry, if there is one.
pub open spec fn with_some(list: Seq<Opportunity>, r: Option<Opportunity>) -> Seq<Opportunity> {
    match r {
        Some(o) => list.push(o),
        None => list,
    }
}

/// Whether a list is another one with the offer of two contracts added.
pub open spec fn cross_added(
    new: Seq<Opportunity>,
    old: Seq<Opportunity>,
    tokens: Seq<Token>,
    first: Leg,
    second: Leg,
    now: i64,
) -> bool {
    exists|token: Token, r: Option<Opportunity>|
        is_classified(token, first.base@, listed_as(tokens, first.base@), first, second) && #[trigger]
        is_cross_candidate(r, token, first, second, now as int) && new == with_some(old, r)
}

/// Whether a list is another one with the offer of a price gap added.
pub open spec fn spread_added(
    new: Seq<Opportunity>,
    old: Seq<Opportunity>,
    tokens: Seq<Token>,
    first: Leg,
    second: Leg,
) -> bool {
    exists|token: Token, r: Option<Opportunity>|
        is_classified(token, first.base@, listed_as(tokens, first.base@), first, second) && #[trigger]
        is_spread_offer(r, token, first, second) && new == with_some(old, r)
}

/// Whether a list is another one with the offers of a contract against its coin
/// added.
pub open spec fn spots_added(
    new: Seq<Opportunity>,
    old: Seq<Opportunity>,
    tokens: Seq<Token>,
    perpetual: Leg,
    spot: Leg,
) -> bool {
    exists|token: Token, short: Option<Opportunity>, long: Option<Opportunity>|
        is_classified(token, perpetual.base@, listed_as(tokens, perpetual.base@), perpetual, perpetual)
            && #[trigger] is_spot_short(short, token, perpetual, spot) && #[trigger] is_spot_long(
            long,
            token,
            perpetual,
            spot,
        ) && new == with_some(with_some(old, short), long)
}

/// What a scan has found.
pub struct Scan {
    pub opportunities: Vec<Opportunity>,
    pub spread_opportunities: Vec<Opportunity>,
    pub matched: usize,
    pub universe: usize,
}

/// The lists that a scan goes through.
pub struct Markets {
    pub binance: Vec<Leg>,
    pub bybit: Vec<Leg>,
    pub binance_spot: Vec<Leg>,
    pub bybit_spot: Vec<Leg>,
    pub tokens: Vec<Token>,
}

/// The lists of offers while a scan goes on: the funding routes, the price
/// gaps, and how many symbols both exchanges have.
pub struct Found {
    pub routes: Seq<Opportunity>,
    pub gaps: Seq<Opportunity>,
    pub matched: nat,
}

/// Whether two contracts are about the same kind of asset.
pub open spec fn compatible(first: Leg, second: Leg) -> bool {
    tradefi(first) == tradefi(second)
}

/// Whether routes are others with the offer of a contract of Binance against
/// the one of Bybit added, if there is one.
pub open spec fn crossed(
    new: Seq<Opportunity>,
    old: Seq<Opportunity>,
    markets: Markets,
    leg: Leg,
    now: i64,
) -> bool {
    let other = last_of(markets.bybit@, leg.base@);
    if other is Some {
        cross_added(new, old, markets.tokens@, leg, markets.bybit@[other->0], now)
    } else {
        new == old
    }
}

/// Whether this was found once a contract of Binance was looked at: it is held
/// against the one of Bybit and against its own coin. Where the two contracts
/// are about different kinds of assets, the symbol is passed over.
pub open spec fn visited_binance(new: Found, old: Found, markets: Markets, leg: Leg, now: i64) -> bool {
    let other = last_of(markets.bybit@, leg.base@);
    let coin = last_of(markets.binance_spot@, leg.base@);
    if other is Some && !compatible(leg, markets.bybit@[other->0]) {
        new == old
    } else {
        &&& exists|mid: Seq<Opportunity>| #[trigger]
            crossed(mid, old.routes, markets, leg, now) && if coin is Some {
                spots_added(
                    new.routes,
                    mid,
                    markets.tokens@,
                    leg,
                    markets.binance_spot@[coin->0],
                )
            } else {
                new.routes == mid
            }
        &&& if other is Some {
            spread_added(new.gaps, old.gaps, markets.tokens@, leg, markets.bybit@[other->0])
        } else {
            new.gaps == old.gaps
        }
        &&& new.matched == old.matched + if other is Some {
            1nat
        } else {
            0nat
        }
    }
}

/// Whether this was found once the first `n` contracts of Binance were looked
/// at.
pub open spec fn scanned_binance(new: Found, markets: Markets, n: int, now: i64) -> bool
    decreases n,
{
    if n <= 0 {
        new == (Found { routes: Seq::empty(), gaps: Seq::empty(), matched: 0 })
    } else if counts(markets.binance@, n - 1) {
        exists|old: Found|
            scanned_binance(old, markets, n - 1, now) && #[trigger] visited_binance(
                new,
                old,
                markets,
                markets.binance@[n - 1],
                now,
            )
    } else {
        scanned_binance(new, markets, n - 1, now)
    }
}

/// Whether routes are others once the first `n` contracts of Bybit were held
/// against their coins.
pub open spec fn scanned_bybit(new: Seq<Opportunity>, old: Seq<Opportunity>, markets: Markets, n: int) -> bool
    decreases n,
{
    if n <= 0 {
        new == old
    } else {
        exists|mid: Seq<Opportunity>|
            scanned_bybit(mid, old, markets, n - 1) && #[trigger] visited_bybit(
                new,
                mid,
                markets,
                n - 1,
            )
    }
}

/// Whether routes are others with the offers of a contract of Bybit against its
/// coin added.
pub open spec fn visited_bybit(
    new: Seq<Opportunity>,
    old: Seq<Opportunity>,
    markets: Markets,
    i: int,
) -> bool {
    let leg = markets.bybit@[i];
    let coin = last_of(markets.bybit_spot@, leg.base@);
    if counts(markets.bybit@, i) && coin is Some {
        spots_added(new, old, markets.tokens@, leg, markets.bybit_spot@[coin->0])
    } else {
        new == old
    }
}

fn add_spots(list: &mut Vec<Opportunity>, tokens: &Vec<Token>, perpetual: &Leg, spot: &Leg)
    ensures
        spots_added(final(list)@, old(list)@, tokens@, *perpetual, *spot),
{
    let ghost before = list@;
    let token = classify_token(
        perpetual.base.as_str(),
        find_listed(tokens, perpetual.base.as_str()),
        perpetual,
        perpetual,
    );
    let short = make_spot_short_perpetual_long(&token, perpetual, spot);
    let long = make_spot_long_perpetual_short(&token, perpetual, spot);
    let ghost given_short = short;
    let ghost given_long = long;
    if let Some(o) = short {
        list.push(o);
    }
    if let Some(o) = long {
        list.push(o);
    }
    proof {
        assert(is_spot_short(given_short, token, *perpetual, *spot));
        assert(is_spot_long(given_long, token, *perpetual, *spot));
        assert(list@ =~= with_some(with_some(before, given_short), given_long));
    }
}

/// Goes through the contracts of both exchanges.
pub fn scan(markets: &Markets, now: i64) -> (r: Scan)
    requires
        markets.binance@.len() + markets.bybit@.len() <= usize::MAX,
    ensures
        exists|found: Found| #[trigger]
            scanned_binance(found, *markets, markets.binance@.len() as int, now) && scanned_bybit(
                r.opportunities@,
                found.routes,
                *markets,
                markets.bybit@.len() as int,
            ) && r.spread_opportunities@ == found.gaps && r.matched == found.matched && r.universe
                == counted(markets.binance@, markets.binance@.len() as int) + counted(
                markets.bybit@,
                markets.bybit@.len() as int,
            ) - found.matched,
{
    let mut opportunities: Vec<Opportunity> = Vec::new();
    let mut spreads: Vec<Opportunity> = Vec::new();
    let mut matched: usize = 0;
    let mut total: usize = 0;
    let mut i: usize = 0;
    while i < markets.binance.len()
        invariant
            i <= markets.binance@.len(),
            matched <= i,
            total == counted(markets.binance@, i as int),
            total <= i,
            markets.binance@.len() + markets.bybit@.len() <= usize::MAX,
            scanned_binance(
                Found { routes: opportunities@, gaps: spreads@, matched: matched as nat },
                *markets,
                i as int,
                now,
            ),
        decreases markets.binance@.len() - i,
    {
        let leg = &markets.binance[i];
        let ghost before = Found { routes: opportunities@, gaps: spreads@, matched: matched as nat };
        let is_last: bool = match find_last(&markets.binance, leg.base.as_str()) {
            Some(k) => k == i,
            None => false,
        };
        if is_last {
            total = total + 1;
            let other = find_last(&markets.bybit, leg.base.as_str());
            let fits: bool = match other {
                Some(k) => is_tradefi(leg) == is_tradefi(&markets.bybit[k]),
                None => true,
            };
            if fits {
                let ghost mut mid = opportunities@;
                if let Some(k) = other {
                    let second = &markets.bybit[k];
                    matched = matched + 1;
                    let token = classify_token(
                        leg.base.as_str(),
                        find_listed(&markets.tokens, leg.base.as_str()),
                        leg,
                        second,
                    );
                    let cross = make_cross_candidate_at(&token, leg, second, now);
                    let gap = make_spread_opportunity(&token, leg, second);
                    let ghost given_cross = cross;
                    let ghost given_gap = gap;
                    if let Some(o) = cross {
                        opportunities.push(o);
                    }
                    if let Some(o) = gap {
                        spreads.push(o);
                    }
                    proof {
                        mid = opportunities@;
                        assert(is_cross_candidate(given_cross, token, *leg, *second, now as int));
                        assert(opportunities@ =~= with_some(before.routes, given_cross));
                        assert(cross_added(
                            mid,
                            before.routes,
                            markets.tokens@,
                            *leg,
                            *second,
                            now,
                        ));
                        assert(crossed(mid, before.routes, *markets, *leg, now));
                        assert(is_spread_offer(given_gap, token, *leg, *second));
                        assert(spreads@ =~= with_some(before.gaps, given_gap));
                        assert(spread_added(spreads@, before.gaps, markets.tokens@, *leg, *second));
                    }
                }
                proof {
                    assert(crossed(mid, before.routes, *markets, *leg, now));
                }
                if let Some(k) = find_last(&markets.binance_spot, leg.base.as_str()) {
                    add_spots(&mut opportunities, &markets.tokens, leg, &markets.binance_spot[k]);
                }
            }
            proof {
                let after = Found { routes: opportunities@, gaps: spreads@, matched: matched as nat };
                assert(visited_binance(after, before, *markets, markets.binance@[i as int], now));
            }
        }
        i = i + 1;
    }
    let ghost found = Found { routes: opportunities@, gaps: spreads@, matched: matched as nat };
    let ghost first_total = total;
    let mut k: usize = 0;
    while k < markets.bybit.len()
        invariant
            k <= markets.bybit@.len(),
            first_total <= markets.binance@.len(),
            markets.binance@.len() + markets.bybit@.len() <= usize::MAX,
            total == first_total + counted(markets.bybit@, k as int),
            total <= first_total + k,
            scanned_bybit(opportunities@, found.routes, *markets, k as int),
        decreases markets.bybit@.len() - k,
    {
        let leg = &markets.bybit[k];
        let ghost before = opportunities@;
        let is_last: bool = match find_last(&markets.bybit, leg.base.as_str()) {
            Some(j) => j == k,
            None => false,
        };
        if is_last {
            total = total + 1;
            if let Some(j) = find_last(&markets.bybit_spot, leg.base.as_str()) {
                add_spots(&mut opportunities, &markets.tokens, leg, &markets.bybit_spot[j]);
            }
        }
        proof {
            assert(visited_bybit(opportunities@, before, *markets, k as int));
            assert(scanned_bybit(opportunities@, found.routes, *markets, (k + 1) as int)) by {
                let n = (k + 1) as int;
                assert(visited_bybit(opportunities@, before, *markets, n - 1));
            }
        }
        k = k + 1;
    }
    proof {
        assert(scanned_binance(found, *markets, markets.binance@.len() as int, now));
        lemma_matched_is_counted(found, *markets, markets.binance@.len() as int, now);
    }
    Scan { opportunities, spread_opportunities: spreads, matched, universe: total - matched }
}

proof fn lemma_matched_is_counted(found: Found, markets: Markets, n: int, now: i64)
    requires
        scanned_binance(found, markets, n, now),
        0 <= n <= markets.binance@.len(),
    ensures
        found.matched <= counted(markets.binance@, n),
    decreases n,
{
    if n > 0 {
        if counts(markets.binance@, n - 1) {
            let old = choose|old: Found|
                scanned_binance(old, markets, n - 1, now) && #[trigger] visited_binance(
                    found,
                    old,
                    markets,
                    markets.binance@[n - 1],
                    now,
                );
            lemma_matched_is_counted(old, markets, n - 1, now);
        } else {
            lemma_matched_is_counted(found, markets, n - 1, now);
        }
    }
}

/// What is known of the cost of borrowing what a route sells.
#[derive(Clone, Copy, Debug, PartialEq, Eq, Structural)]
pub enum BorrowCost {
    /// Nothing has to be borrowed, or nothing was found out.
    Unknown,
    /// This much per hour.
    Rate(Double),
    /// It cannot be had.
    Unavailable,
}

/// Whether an offer is another one with the cost of borrowing taken off.
pub open spec fn charged(new: Opportunity, old: Opportunity, cost: BorrowCost) -> bool {
    match cost {
        BorrowCost::Rate(rate) => {
            let funding = old.funding_per_hour.sub_spec(rate);
            new.copies(
                Opportunity {
                    borrow_interest_per_hour: rate,
                    funding_per_hour: funding,
                    apy: funding.mul_spec(Double { bits: YEAR_HOURS }),
                    ..old
                },
            )
        },
        _ => new.copies(old),
    }
}

/// What is known of the cost of borrowing for one of the offers.
pub open spec fn cost_at(costs: Seq<BorrowCost>, i: int) -> BorrowCost {
    if 0 <= i < costs.len() {
        costs[i]
    } else {
        BorrowCost::Unknown
    }
}

/// What an offer pays after the cost of borrowing.
pub open spec fn charged_funding(offer: Opportunity, cost: BorrowCost) -> Double {
    match cost {
        BorrowCost::Rate(rate) => offer.funding_per_hour.sub_spec(rate),
        _ => offer.funding_per_hour,
    }
}

/// Whether an offer is worth keeping once the cost of borrowing is known.
pub open spec fn worthwhile(offer: Opportunity, cost: BorrowCost) -> bool {
    cost != BorrowCost::Unavailable && (Double { bits: ZERO }).lt_spec(charged_funding(offer, cost))
}

/// Whether offers are the first `n` of others that are worth keeping and of a
/// kind, in their order.
pub open spec fn kept(
    new: Seq<Opportunity>,
    old: Seq<Opportunity>,
    costs: Seq<BorrowCost>,
    cross: bool,
    n: int,
) -> bool
    decreases n,
{
    if n <= 0 {
        new.len() == 0
    } else {
        let offer = old[n - 1];
        let cost = cost_at(costs, n - 1);
        if worthwhile(offer, cost) && (offer.route_type@ == "cross_perpetual"@) == cross {
            new.len() > 0 && charged(new.last(), offer, cost) && kept(
                new.drop_last(),
                old,
                costs,
                cross,
                n - 1,
            )
        } else {
            kept(new, old, costs, cross, n - 1)
        }
    }
}

/// Takes the cost of borrowing off the offers, drops those that do not pay, and
/// parts the routes over two contracts from those over a coin.
pub fn apply_borrow_costs(offers: &Vec<Opportunity>, costs: &Vec<BorrowCost>) -> (r: (
    Vec<Opportunity>,
    Vec<Opportunity>,
))
    ensures
        kept(r.0@, offers@, costs@, true, offers@.len() as int),
        kept(r.1@, offers@, costs@, false, offers@.len() as int),
{
    let mut cross: Vec<Opportunity> = Vec::new();
    let mut spot: Vec<Opportunity> = Vec::new();
    let mut i: usize = 0;
    while i < offers.len()
        invariant
            i <= offers@.len(),
            kept(cross@, offers@, costs@, true, i as int),
            kept(spot@, offers@, costs@, false, i as int),
        decreases offers@.len() - i,
    {
        let cost = if i < costs.len() {
            costs[i]
        } else {
            BorrowCost::Unknown
        };
        let ghost cross_before = cross@;
        let ghost spot_before = spot@;
        let mut offer = offers[i].clone();
        let available: bool = match cost {
            BorrowCost::Unknown => true,
            BorrowCost::Rate(rate) => {
                offer.borrow_interest_per_hour = rate;
                offer.funding_per_hour = offer.funding_per_hour.sub(rate);
                offer.apy = offer.funding_per_hour.mul(Double { bits: YEAR_HOURS });
                true
            },
            BorrowCost::Unavailable => false,
        };
        if available && offer.funding_per_hour.gt(Double { bits: ZERO }) {
            if same(offer.route_type.as_str(), "cross_perpetual") {
                cross.push(offer);
                proof {
                    assert(cross@.drop_last() =~= cross_before);
                }
            } else {
                spot.push(offer);
                proof {
                    assert(spot@.drop_last() =~= spot_before);
                }
            }
        }
        i = i + 1;
    }
    (cross, spot)
}

/// Whether an offer is another one with its funding projected; without averages
/// it pays nothing.
pub open spec fn reprojected(
    new: Opportunity,
    old: Opportunity,
    averages: Option<(Double, Double)>,
    now: i64,
) -> bool {
    let projection = match averages {
        Some(a) => best_projection(old.long, old.short, now as int, a.0, a.1),
        None => None,
    };
    let zero = Double { bits: ZERO };
    match projection {
        Some(best) => new.copies(
            Opportunity {
                funding_per_hour: best.0,
                apy: best.0.mul_spec(Double { bits: YEAR_HOURS }),
                apy_horizon_hours: best.1,
                ..old
            },
        ),
        None => new.copies(Opportunity { funding_per_hour: zero, apy: zero, ..old }),
    }
}

/// The averages for one of the offers.
pub open spec fn averages_at(averages: Seq<Option<(Double, Double)>>, i: int) -> Option<(Double, Double)> {
    if 0 <= i < averages.len() {
        averages[i]
    } else {
        None
    }
}

/// Projects the funding of the offers.
pub fn apply_projections(offers: &Vec<Opportunity>, averages: &Vec<Option<(Double, Double)>>, now: i64) -> (r: Vec<
    Opportunity,
>)
    ensures
        r@.len() == offers@.len(),
        forall|i: int|
            0 <= i < offers@.len() ==> reprojected(
                #[trigger] r@[i],
                offers@[i],
                averages_at(averages@, i),
                now,
            ),
{
    let mut r: Vec<Opportunity> = Vec::new();
    let mut i: usize = 0;
    while i < offers.len()
        invariant
            i <= offers@.len(),
            r@.len() == i,
            forall|k: int|
                0 <= k < i ==> reprojected(
                    #[trigger] r@[k],
                    offers@[k],
                    averages_at(averages@, k),
                    now,
                ),
        decreases offers@.len() - i,
    {
        let mut offer = offers[i].clone();
        let zero = Double { bits: ZERO };
        offer.funding_per_hour = zero;
        offer.apy = zero;
        let known = if i < averages.len() {
            averages[i]
        } else {
            None
        };
        if let Some(a) = known {
            if let Some(best) = cross_funding_projection(
                &offers[i].long,
                &offers[i].short,
                now,
                a.0,
                a.1,
            ) {
                offer.funding_per_hour = best.0;
                offer.apy = best.0.mul(Double { bits: YEAR_HOURS });
                offer.apy_horizon_hours = best.1;
            }
        }
        r.push(offer);
        i = i + 1;
    }
    r
}

/// Whether an offer counts when offers are ranked: by its yield, or by how far
/// its gap is from its average.
#[derive(Clone, Copy, Debug, PartialEq, Eq, Structural)]
pub enum Ranking {
    /// The highest yield first.
    Yield,
    /// The highest yield first, of those that pay.
    PayingYield,
    /// The widest gap first, of those that are wide enough.
    Gap,
}

/// What an offer is ranked by.
pub open spec fn rank_key(offer: Opportunity, ranking: Ranking) -> i128 {
    (-(match ranking {
        Ranking::Gap => offer.spread_vs_average.total_place(),
        _ => offer.apy.total_place(),
    })) as i128
}

/// Whether an offer is ranked at all.
pub open spec fn eligible(offer: Opportunity, ranking: Ranking) -> bool {
    match ranking {
        Ranking::Yield => true,
        Ranking::PayingYield => (Double { bits: ZERO }).lt_spec(offer.funding_per_hour),
        Ranking::Gap => (Double { bits: SPREAD_OPPORTUNITY_DEVIATION_THRESHOLD }).lt_spec(
            offer.spread_vs_average,
        ),
    }
}

/// The places of the offers that are ranked.
pub open spec fn eligible_places(offers: Seq<Opportunity>, ranking: Ranking, n: int) -> Seq<int>
    decreases n,
{
    if n <= 0 {
        Seq::empty()
    } else if eligible(offers[n - 1], ranking) {
        eligible_places(offers, ranking, n - 1).push(n - 1)
    } else {
        eligible_places(offers, ranking, n - 1)
    }
}

/// The keys of the offers that are ranked.
pub open spec fn rank_keys(offers: Seq<Opportunity>, ranking: Ranking) -> Seq<i128> {
    let places = eligible_places(offers, ranking, offers.len() as int);
    Seq::new(places.len(), |i: int| rank_key(offers[places[i]], ranking))
}

/// Whether offers are others in their rank, cut off at a number.
pub open spec fn is_ranked(
    new: Seq<Opportunity>,
    old: Seq<Opportunity>,
    ranking: Ranking,
    order: Seq<usize>,
    limit: nat,
) -> bool {
    let places = eligible_places(old, ranking, old.len() as int);
    &&& is_stable_order(order, rank_keys(old, ranking))
    &&& new.len() == (if places.len() < limit {
        places.len()
    } else {
        limit
    })
    &&& forall|i: int| 0 <= i < new.len() ==> (#[trigger] new[i]).copies(old[places[order[i] as int]])
}

/// The offers in their rank, cut off at a number.
pub fn rank(offers: &Vec<Opportunity>, ranking: Ranking, limit: usize) -> (r: Vec<Opportunity>)
    ensures
        exists|order: Seq<usize>| is_ranked(r@, offers@, ranking, order, limit as nat),
{
    let mut places: Vec<usize> = Vec::new();
    let mut keys: Vec<i128> = Vec::new();
    let mut i: usize = 0;
    while i < offers.len()
        invariant
            i <= offers@.len(),
            places@.len() == keys@.len(),
            places@.len() == eligible_places(offers@, ranking, i as int).len(),
            forall|k: int|
                0 <= k < places@.len() ==> (#[trigger] places@[k]) < i && places@[k] == eligible_places(
                    offers@,
                    ranking,
                    i as int,
                )[k],
            forall|k: int|
                0 <= k < keys@.len() ==> #[trigger] keys@[k] == rank_key(
                    offers@[places@[k] as int],
                    ranking,
                ),
        decreases offers@.len() - i,
    {
        let offer = &offers[i];
        let counts: bool = match ranking {
            Ranking::Yield => true,
            Ranking::PayingYield => offer.funding_per_hour.gt(Double { bits: ZERO }),
            Ranking::Gap => offer.spread_vs_average.gt(
                Double { bits: SPREAD_OPPORTUNITY_DEVIATION_THRESHOLD },
            ),
        };
        if counts {
            let key: i128 = match ranking {
                Ranking::Gap => offer.spread_vs_average.total_key(),
                _ => offer.apy.total_key(),
            };
            places.push(i);
            keys.push(-key);
        }
        i = i + 1;
    }
    proof {
        assert(keys@ =~= rank_keys(offers@, ranking));
    }
    let order = stable_order(&keys);
    let mut r: Vec<Opportunity> = Vec::new();
    let mut k: usize = 0;
    while k < order.len() && k < limit
        invariant
            k <= order@.len(),
            k <= limit,
            places@.len() == keys@.len(),
            keys@ == rank_keys(offers@, ranking),
            is_stable_order(order@, keys@),
            places@.len() == eligible_places(offers@, ranking, offers@.len() as int).len(),
            forall|j: int|
                0 <= j < places@.len() ==> (#[trigger] places@[j]) < offers@.len() && places@[j]
                    == eligible_places(offers@, ranking, offers@.len() as int)[j],
            r@.len() == k,
            forall|j: int|
                0 <= j < k ==> (#[trigger] r@[j]).copies(
                    offers@[eligible_places(offers@, ranking, offers@.len() as int)[order@[j] as int]],
                ),
        decreases order@.len() - k,
    {
        r.push(offers[places[order[k]]].clone());
        k = k + 1;
    }
    proof {
        assert(is_ranked(r@, offers@, ranking, order@, limit as nat));
    }
    r
}

/// How many routes of a kind are offered.
pub const OFFERS_KEPT: usize = 10;

/// Whether the coin of a route has to be borrowed on Binance.
pub open spec fn must_ask(offer: Opportunity) -> bool {
    offer.short.exchange@ == "Binance"@ && offer.short.market@ == "spot"@
}

/// Picking routes over a coin: the best ten that can be had.
pub struct SpotPick {
    pub candidates: Vec<Opportunity>,
    pub next: usize,
    pub picked: Vec<Opportunity>,
}

/// The next step of picking routes over a coin.
pub enum PickStep {
    /// Ask whether the coin of the next candidate can be borrowed.
    Ask(String),
    /// Enough were picked, or none is left.
    Done,
}

impl SpotPick {
    pub open spec fn wf(self) -> bool {
        self.next <= self.candidates@.len() && self.picked@.len() <= OFFERS_KEPT
    }

    pub fn new(candidates: Vec<Opportunity>) -> (pick: SpotPick)
        ensures
            pick.wf(),
            pick.candidates == candidates,
            pick.next == 0,
            pick.picked@ == Seq::<Opportunity>::empty(),
    {
        SpotPick { candidates, next: 0, picked: Vec::new() }
    }

    /// Picks the candidates that nobody has to be asked about, up to the next
    /// one that has to be.
    pub fn advance(&mut self) -> (step: PickStep)
        requires
            old(self).wf(),
        ensures
            final(self).wf(),
            final(self).candidates == old(self).candidates,
            old(self).next <= final(self).next,
            final(self).picked@.len() == old(self).picked@.len() + (final(self).next - old(self).next),
            forall|i: int|
                0 <= i < old(self).picked@.len() ==> #[trigger] final(self).picked@[i] == old(self).picked@[i],
            forall|i: int|
                old(self).next <= i < final(self).next ==> !must_ask(#[trigger] old(self).candidates@[i])
                    && final(self).picked@[old(self).picked@.len() + i - old(self).next].copies(
                    old(self).candidates@[i],
                ),
            match step {
                PickStep::Ask(asset) => {
                    &&& final(self).next < final(self).candidates@.len()
                    &&& final(self).picked@.len() < OFFERS_KEPT
                    &&& must_ask(final(self).candidates@[final(self).next as int])
                    &&& asset@ == final(self).candidates@[final(self).next as int].short.base@
                },
                PickStep::Done => final(self).next == final(self).candidates@.len()
                    || final(self).picked@.len() == OFFERS_KEPT,
            },
    {
        while self.next < self.candidates.len() && self.picked.len() < OFFERS_KEPT
            invariant
                self.wf(),
                self.candidates == old(self).candidates,
                old(self).next <= self.next,
                self.picked@.len() == old(self).picked@.len() + (self.next - old(self).next),
                forall|i: int|
                    0 <= i < old(self).picked@.len() ==> #[trigger] self.picked@[i] == old(self).picked@[i],
                forall|i: int|
                    old(self).next <= i < self.next ==> !must_ask(#[trigger] old(self).candidates@[i])
                        && self.picked@[old(self).picked@.len() + i - old(self).next].copies(
                        old(self).candidates@[i],
                    ),
            decreases self.candidates@.len() - self.next,
        {
            let offer = &self.candidates[self.next];
            if same(offer.short.exchange.as_str(), "Binance") && same(offer.short.market.as_str(), "spot") {
                return PickStep::Ask(offer.short.base.clone());
            }
            let copy = offer.clone();
            self.picked.push(copy);
            self.next = self.next + 1;
        }
        PickStep::Done
    }

    /// Takes in whether the coin of the next candidate can be borrowed.
    pub fn on_answer(&mut self, available: bool)
        requires
            old(self).wf(),
            old(self).next < old(self).candidates@.len(),
            old(self).picked@.len() < OFFERS_KEPT,
        ensures
            final(self).wf(),
            final(self).candidates == old(self).candidates,
            final(self).next == old(self).next + 1,
            if available {
                &&& final(self).picked@.len() == old(self).picked@.len() + 1
                &&& final(self).picked@.drop_last() == old(self).picked@
                &&& final(self).picked@.last().copies(old(self).candidates@[old(self).next as int])
            } else {
                final(self).picked == old(self).picked
            },
    {
        proof {
            assert(self.candidates.len() == self.candidates@.len());
        }
        if available {
            let copy = self.candidates[self.next].clone();
            let ghost before = self.picked@;
            self.picked.push(copy);
            proof {
                assert(self.picked@.drop_last() =~= before);
            }
        }
        self.next = self.next + 1;
    }
}

/// Whether an offer is another one with the average of its gap.
pub open spec fn averaged(new: Opportunity, old: Opportunity, average: Option<Double>) -> bool {
    match average {
        Some(a) => {
            let distance = old.spread.sub_spec(a);
            new.copies(
                Opportunity {
                    average_spread_24h: a,
                    spread_vs_average: distance,
                    break_even_hours: hours_to_break_even(old.funding_per_hour, old.fees, distance),
                    ..old
                },
            )
        },
        None => new.copies(old),
    }
}

/// The average for one of the offers.
pub open spec fn average_at(averages: Seq<Option<Double>>, i: int) -> Option<Double> {
    if 0 <= i < averages.len() {
        averages[i]
    } else {
        None
    }
}

/// Sets the averages of the gaps of offers.
pub fn apply_averages(offers: &Vec<Opportunity>, averages: &Vec<Option<Double>>) -> (r: Vec<Opportunity>)
    ensures
        r@.len() == offers@.len(),
        forall|i: int|
            0 <= i < offers@.len() ==> averaged(#[trigger] r@[i], offers@[i], average_at(averages@, i)),
{
    let mut r: Vec<Opportunity> = Vec::new();
    let mut i: usize = 0;
    while i < offers.len()
        invariant
            i <= offers@.len(),
            r@.len() == i,
            forall|k: int|
                0 <= k < i ==> averaged(#[trigger] r@[k], offers@[k], average_at(averages@, k)),
        decreases offers@.len() - i,
    {
        let mut offer = offers[i].clone();
        let known = if i < averages.len() {
            averages[i]
        } else {
            None
        };
        if let Some(a) = known {
            offer.average_spread_24h = a;
            offer.spread_vs_average = offer.spread.sub(a);
            offer.break_even_hours = break_even_hours(
                offer.funding_per_hour,
                offer.fees,
                offer.spread_vs_average,
            );
        }
        r.push(offer);
        i = i + 1;
    }
    r
}

pub proof fn lemma_places_are_eligible(offers: Seq<Opportunity>, ranking: Ranking, n: int, i: int)
    requires
        0 <= n <= offers.len(),
        0 <= i < eligible_places(offers, ranking, n).len(),
    ensures
        0 <= eligible_places(offers, ranking, n)[i] < n,
        eligible(offers[eligible_places(offers, ranking, n)[i]], ranking),
    decreases n,
{
    if n > 0 {
        let before = eligible_places(offers, ranking, n - 1);
        if i < before.len() {
            lemma_places_are_eligible(offers, ranking, n - 1, i);
        }
    }
}

/// No route is offered before one that ranks higher, and none that does not
/// count: every route that has to pay does, and every gap is wide enough.
pub proof fn lemma_ranked_from_the_best(
    new: Seq<Opportunity>,
    old: Seq<Opportunity>,
    ranking: Ranking,
    order: Seq<usize>,
    limit: nat,
    i: int,
    j: int,
)
    requires
        is_ranked(new, old, ranking, order, limit),
        0 <= i <= j < new.len(),
    ensures
        new.len() <= limit,
        rank_key(new[i], ranking) <= rank_key(new[j], ranking),
        eligible(new[i], ranking),
{
    let places = eligible_places(old, ranking, old.len() as int);
    let keys = rank_keys(old, ranking);
    assert(new[i].copies(old[places[order[i] as int]]));
    assert(new[j].copies(old[places[order[j] as int]]));
    if i < j {
        assert(crate::sorting::comes_first(keys, order[i] as int, order[j] as int));
    }
    lemma_places_are_eligible(old, ranking, old.len() as int, order[i] as int);
}

} // verus!
