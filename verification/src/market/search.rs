//! A search for offers: a scan of all markets, what has to be found out about
//! its routes, and the answer.

use crate::failure::Failure;
use crate::market::routes::{
    is_spread_offer, SPREAD_OPPORTUNITY_ABSOLUTE_THRESHOLD, SPREAD_OPPORTUNITY_DEVIATION_THRESHOLD,
};
use crate::market::scan::{
    apply_averages, apply_borrow_costs, apply_projections, average_at, averaged, averages_at, charged, cost_at,
    counted, counts, eligible, eligible_places, is_ranked, kept, last_of, lemma_places_are_eligible,
    lemma_ranked_from_the_best, must_ask, rank, rank_key, reprojected, scan, scanned_binance, scanned_bybit,
    spread_added, visited_binance, with_some, worthwhile, BorrowCost, Found, Markets, PickStep, Ranking, SpotPick,
    OFFERS_KEPT,
};
use crate::models::{FeeAssumptions, Leg, OpportunitiesResponse, Opportunity, Token};
use crate::num::constants::{BINANCE_FEE, BYBIT_FEE, ZERO};
use crate::num::Double;
use crate::text::same;
use vstd::prelude::*;

verus! {

/// Whether offers come in the order of their yield, the highest first.
pub open spec fn by_yield(offers: Seq<Opportunity>) -> bool {
    forall|i: int, j: int|
        0 <= i <= j < offers.len() ==> (#[trigger] offers[j]).apy.total_place() <= (#[trigger] offers[i]).apy.total_place()
}

/// Whether all offers pay.
pub open spec fn all_pay(offers: Seq<Opportunity>) -> bool {
    forall|i: int|
        0 <= i < offers.len() ==> (Double { bits: ZERO }).lt_spec((#[trigger] offers[i]).funding_per_hour)
}

/// Whether all offers are over two contracts, or none is.
pub open spec fn of_kind(offers: Seq<Opportunity>, cross: bool) -> bool {
    forall|i: int|
        0 <= i < offers.len() ==> ((#[trigger] offers[i]).route_type@ == "cross_perpetual"@) == cross
}

/// Whether a gap was wide enough when it was found. One whose spread is not a
/// number is never far from its average.
pub open spec fn gap_counts(offer: Opportunity) -> bool {
    &&& !offer.spread.le_spec(Double { bits: SPREAD_OPPORTUNITY_ABSOLUTE_THRESHOLD })
    &&& offer.spread.nan() ==> !(Double { bits: SPREAD_OPPORTUNITY_DEVIATION_THRESHOLD }).lt_spec(
        offer.spread_vs_average,
    )
}

pub open spec fn gaps_count(offers: Seq<Opportunity>) -> bool {
    forall|i: int| 0 <= i < offers.len() ==> gap_counts(#[trigger] offers[i])
}

impl Markets {
    /// The lists that a scan goes through. It needs the contracts of both
    /// exchanges; coins and tokens that could not be had are passed over.
    pub fn gather(
        contracts: Result<(Vec<Leg>, Vec<Leg>), Failure>,
        binance_spot: Option<Vec<Leg>>,
        bybit_spot: Option<Vec<Leg>>,
        tokens: Option<Vec<Token>>,
    ) -> (r: Result<Markets, Failure>)
        ensures
            match contracts {
                Err(f) => r == Err::<Markets, Failure>(f),
                Ok((binance, bybit)) => {
                    &&& r matches Ok(markets)
                    &&& markets.binance == binance
                    &&& markets.bybit == bybit
                    &&& markets.binance_spot@ == (match binance_spot {
                        Some(legs) => legs@,
                        None => Seq::empty(),
                    })
                    &&& markets.bybit_spot@ == (match bybit_spot {
                        Some(legs) => legs@,
                        None => Seq::empty(),
                    })
                    &&& markets.tokens@ == (match tokens {
                        Some(list) => list@,
                        None => Seq::empty(),
                    })
                },
            },
    {
        let (binance, bybit) = match contracts {
            Ok(pair) => pair,
            Err(f) => return Err(f),
        };
        Ok(
            Markets {
                binance,
                bybit,
                binance_spot: match binance_spot {
                    Some(legs) => legs,
                    None => Vec::new(),
                },
                bybit_spot: match bybit_spot {
                    Some(legs) => legs,
                    None => Vec::new(),
                },
                tokens: match tokens {
                    Some(list) => list,
                    None => Vec::new(),
                },
            },
        )
    }
}

/// Where a search stands: what has to be found out next.
#[derive(Clone, Copy, Debug, PartialEq, Eq, Structural)]
pub enum ScanStage {
    /// What it costs to borrow what routes sell.
    Costs,
    /// The average funding of the routes over two contracts.
    Averages,
    /// Whether the coins of the best routes over a coin can be borrowed.
    Coins,
    /// The average gaps of the routes over two contracts.
    CrossGaps,
    /// The average gaps of the routes over a coin.
    SpotGaps,
    /// The average gaps of the price gaps.
    WideGaps,
    /// Everything is known.
    Ready,
}

/// What a search asks for next.
#[derive(Debug)]
pub enum ScanAction {
    /// Find out what it costs to borrow what routes sell: for each route the
    /// exchange and the asset, where something has to be borrowed.
    FindCosts { asks: Vec<Option<(String, String)>> },
    /// Find the average funding of both legs of each route over two contracts.
    FindAverages,
    /// Find out whether an asset can be borrowed on Binance.
    AskCoin { asset: String },
    /// Find the average gap of each route over two contracts.
    FindCrossGaps,
    /// Find the average gap of each route over a coin.
    FindSpotGaps,
    /// Find the average gap of each price gap.
    FindWideGaps,
    /// Everything is known.
    Finish,
}

/// A search for offers.
pub struct ScanRun {
    pub stage: ScanStage,
    /// All routes that were found.
    pub routes: Vec<Opportunity>,
    /// The routes over two contracts.
    pub cross: Vec<Opportunity>,
    /// The routes over a coin, from the best; and those that were picked.
    pub pick: SpotPick,
    /// The routes over a coin that are offered.
    pub spot: Vec<Opportunity>,
    /// The price gaps.
    pub gaps: Vec<Opportunity>,
    pub matched: usize,
    pub universe: usize,
}

/// What has to be asked about a route: the exchange and the asset that it
/// borrows.
pub open spec fn asks_for(ask: Option<(String, String)>, offer: Opportunity) -> bool {
    if offer.short.market@ == "spot"@ {
        ask matches Some(a) && a.0@ == offer.short.exchange@ && a.1@ == offer.short.base@
    } else {
        ask is None
    }
}

/// Whether picked routes come in the order of their yield, before all that are
/// left to pick from.
pub open spec fn picks_in_order(pick: SpotPick) -> bool {
    &&& by_yield(pick.picked@)
    &&& forall|i: int, k: int|
        0 <= i < pick.picked@.len() && pick.next <= k < pick.candidates@.len() ==> (#[trigger] pick.candidates@[k]).apy.total_place()
            <= (#[trigger] pick.picked@[i]).apy.total_place()
}

/// Whether routes of a kind may be offered: at most ten, from the highest yield,
/// and all of them pay.
pub open spec fn offerable(offers: Seq<Opportunity>, cross: bool) -> bool {
    &&& offers.len() <= OFFERS_KEPT
    &&& by_yield(offers)
    &&& all_pay(offers)
    &&& of_kind(offers, cross)
}

impl ScanRun {
    pub open spec fn wf(self) -> bool {
        &&& self.matched <= self.universe
        &&& gaps_count(self.gaps@)
        &&& self.pick.wf()
        &&& !(self.stage is Costs) ==> {
            &&& of_kind(self.cross@, true)
            &&& by_yield(self.pick.candidates@)
            &&& all_pay(self.pick.candidates@)
            &&& of_kind(self.pick.candidates@, false)
            &&& offerable(self.pick.picked@, false)
            &&& picks_in_order(self.pick)
        }
        &&& !(self.stage is Costs) && !(self.stage is Averages) ==> offerable(self.cross@, true)
        &&& self.stage is Coins ==> {
            &&& self.pick.next < self.pick.candidates@.len()
            &&& self.pick.picked@.len() < OFFERS_KEPT
            &&& must_ask(self.pick.candidates@[self.pick.next as int])
        }
        &&& self.stage is CrossGaps || self.stage is SpotGaps || self.stage is WideGaps || self.stage is Ready
            ==> offerable(self.spot@, false)
    }

    /// Begins with a scan of all markets.
    pub fn new(markets: &Markets, now: i64) -> (run: ScanRun)
        requires
            markets.binance@.len() + markets.bybit@.len() <= usize::MAX,
        ensures
            run.wf(),
            run.stage is Costs,
            exists|found: Found| #[trigger]
                scanned_binance(found, *markets, markets.binance@.len() as int, now) && scanned_bybit(
                    run.routes@,
                    found.routes,
                    *markets,
                    markets.bybit@.len() as int,
                ) && run.gaps@ == found.gaps && run.matched == found.matched && run.universe == counted(
                    markets.binance@,
                    markets.binance@.len() as int,
                ) + counted(markets.bybit@, markets.bybit@.len() as int) - found.matched,
            run.cross@ == Seq::<Opportunity>::empty(),
            run.spot@ == Seq::<Opportunity>::empty(),
    {
        let found = scan(markets, now);
        proof {
            let n = markets.binance@.len() as int;
            let f = choose|f: Found| #[trigger]
                scanned_binance(f, *markets, n, now) && scanned_bybit(
                    found.opportunities@,
                    f.routes,
                    *markets,
                    markets.bybit@.len() as int,
                ) && found.spread_opportunities@ == f.gaps && found.matched == f.matched && found.universe == counted(
                    markets.binance@,
                    n,
                ) + counted(markets.bybit@, markets.bybit@.len() as int) - f.matched;
            lemma_gaps_count(f, *markets, n, now);
            lemma_matched_fits(f, *markets, now);
        }
        ScanRun {
            stage: ScanStage::Costs,
            routes: found.opportunities,
            cross: Vec::new(),
            pick: SpotPick::new(Vec::new()),
            spot: Vec::new(),
            gaps: found.spread_opportunities,
            matched: found.matched,
            universe: found.universe,
        }
    }

    /// What comes next.
    pub fn next(&self) -> (action: ScanAction)
        requires
            self.wf(),
        ensures
            match self.stage {
                ScanStage::Costs => {
                    &&& action matches ScanAction::FindCosts { asks }
                    &&& asks@.len() == self.routes@.len()
                    &&& forall|i: int| 0 <= i < asks@.len() ==> asks_for(#[trigger] asks@[i], self.routes@[i])
                },
                ScanStage::Averages => action is FindAverages,
                ScanStage::Coins => action matches ScanAction::AskCoin { asset } && asset@
                    == self.pick.candidates@[self.pick.next as int].short.base@,
                ScanStage::CrossGaps => action is FindCrossGaps,
                ScanStage::SpotGaps => action is FindSpotGaps,
                ScanStage::WideGaps => action is FindWideGaps,
                ScanStage::Ready => action is Finish,
            },
    {
        match self.stage {
            ScanStage::Costs => {
                let mut asks: Vec<Option<(String, String)>> = Vec::new();
                let mut i: usize = 0;
                while i < self.routes.len()
                    invariant
                        i <= self.routes@.len(),
                        asks@.len() == i,
                        forall|k: int| 0 <= k < i ==> asks_for(#[trigger] asks@[k], self.routes@[k]),
                    decreases self.routes@.len() - i,
                {
                    let short = &self.routes[i].short;
                    if same(short.market.as_str(), "spot") {
                        asks.push(Some((short.exchange.clone(), short.base.clone())));
                    } else {
                        asks.push(None);
                    }
                    i = i + 1;
                }
                ScanAction::FindCosts { asks }
            },
            ScanStage::Averages => ScanAction::FindAverages,
            ScanStage::Coins => ScanAction::AskCoin {
                asset: self.pick.candidates[self.pick.next].short.base.clone(),
            },
            ScanStage::CrossGaps => ScanAction::FindCrossGaps,
            ScanStage::SpotGaps => ScanAction::FindSpotGaps,
            ScanStage::WideGaps => ScanAction::FindWideGaps,
            ScanStage::Ready => ScanAction::Finish,
        }
    }

    /// Takes in what it costs to borrow: routes that do not pay are dropped, those
    /// over a coin are put in the order of their yield.
    pub fn on_costs(&mut self, costs: &Vec<BorrowCost>)
        requires
            old(self).wf(),
            old(self).stage is Costs,
        ensures
            final(self).wf(),
            *final(self) == (ScanRun {
                stage: ScanStage::Averages,
                cross: final(self).cross,
                pick: final(self).pick,
                ..*old(self)
            }),
            kept(final(self).cross@, old(self).routes@, costs@, true, old(self).routes@.len() as int),
            exists|spot: Seq<Opportunity>, order: Seq<usize>| #[trigger]
                kept(spot, old(self).routes@, costs@, false, old(self).routes@.len() as int) && #[trigger] is_ranked(
                    final(self).pick.candidates@,
                    spot,
                    Ranking::Yield,
                    order,
                    spot.len(),
                ),
            final(self).pick.next == 0,
            final(self).pick.picked@ == Seq::<Opportunity>::empty(),
    {
        let (cross, spot) = apply_borrow_costs(&self.routes, costs);
        let ranked = rank(&spot, Ranking::Yield, spot.len());
        proof {
            let n = self.routes@.len() as int;
            lemma_kept_pays(cross@, self.routes@, costs@, true, n);
            lemma_kept_pays(spot@, self.routes@, costs@, false, n);
            let order = choose|order: Seq<usize>|
                is_ranked(ranked@, spot@, Ranking::Yield, order, spot@.len());
            lemma_ranked_offers(ranked@, spot@, Ranking::Yield, order, spot@.len(), false);
        }
        self.cross = cross;
        self.pick = SpotPick::new(ranked);
        self.stage = ScanStage::Averages;
    }

    /// Takes in the average funding of the routes over two contracts: the best
    /// ten that pay are kept.
    pub fn on_averages(&mut self, averages: &Vec<Option<(Double, Double)>>, now: i64)
        requires
            old(self).wf(),
            old(self).stage is Averages,
        ensures
            final(self).wf(),
            *final(self) == (ScanRun {
                stage: final(self).stage,
                cross: final(self).cross,
                pick: final(self).pick,
                spot: final(self).spot,
                ..*old(self)
            }),
            exists|projected: Seq<Opportunity>, order: Seq<usize>| #[trigger]
                all_reprojected(projected, old(self).cross@, averages@, now) && #[trigger] is_ranked(
                    final(self).cross@,
                    projected,
                    Ranking::PayingYield,
                    order,
                    OFFERS_KEPT as nat,
                ),
            final(self).picked_on(old(self).pick),
    {
        let projected = apply_projections(&self.cross, averages, now);
        let ranked = rank(&projected, Ranking::PayingYield, OFFERS_KEPT);
        proof {
            assert(all_reprojected(projected@, self.cross@, averages@, now));
            let order = choose|order: Seq<usize>|
                is_ranked(ranked@, projected@, Ranking::PayingYield, order, OFFERS_KEPT as nat);
            assert(is_ranked(ranked@, projected@, Ranking::PayingYield, order, OFFERS_KEPT as nat));
            assert(of_kind(projected@, true)) by {
                assert forall|i: int| 0 <= i < projected@.len() implies (#[trigger] projected@[i]).route_type@
                    == "cross_perpetual"@ by {
                    assert(self.cross@[i].route_type@ == "cross_perpetual"@);
                }
            }
            lemma_ranked_offers(ranked@, projected@, Ranking::PayingYield, order, OFFERS_KEPT as nat, true);
        }
        self.cross = ranked;
        self.stage = ScanStage::CrossGaps;
        self.go_on();
    }

    /// Whether routes over a coin were picked as far as nobody has to be asked:
    /// either the next one has to be asked about, or ten were picked, or none is
    /// left.
    pub open spec fn picked_on(self, before: SpotPick) -> bool {
        &&& self.pick.candidates == before.candidates
        &&& before.next <= self.pick.next <= before.candidates@.len()
        &&& self.pick.picked@.len() == before.picked@.len() + (self.pick.next - before.next)
        &&& forall|i: int|
            0 <= i < before.picked@.len() ==> #[trigger] self.pick.picked@[i] == before.picked@[i]
        &&& forall|i: int|
            before.next <= i < self.pick.next ==> !must_ask(#[trigger] before.candidates@[i])
                && self.pick.picked@[before.picked@.len() + i - before.next].copies(before.candidates@[i])
        &&& if self.stage is Coins {
            &&& self.pick.next < self.pick.candidates@.len()
            &&& self.pick.picked@.len() < OFFERS_KEPT
            &&& must_ask(self.pick.candidates@[self.pick.next as int])
        } else {
            &&& self.stage is CrossGaps
            &&& self.pick.next == self.pick.candidates@.len() || self.pick.picked@.len() == OFFERS_KEPT
            &&& self.spot@.len() == self.pick.picked@.len()
            &&& forall|i: int| 0 <= i < self.spot@.len() ==> (#[trigger] self.spot@[i]).copies(self.pick.picked@[i])
        }
    }

    /// Picks routes over a coin up to the next that has to be asked about.
    fn go_on(&mut self)
        requires
            old(self).matched <= old(self).universe,
            gaps_count(old(self).gaps@),
            offerable(old(self).cross@, true),
            old(self).pick.wf(),
            by_yield(old(self).pick.candidates@),
            all_pay(old(self).pick.candidates@),
            of_kind(old(self).pick.candidates@, false),
            offerable(old(self).pick.picked@, false),
            picks_in_order(old(self).pick),
        ensures
            final(self).wf(),
            *final(self) == (ScanRun {
                stage: final(self).stage,
                pick: final(self).pick,
                spot: final(self).spot,
                ..*old(self)
            }),
            final(self).picked_on(old(self).pick),
    {
        let step = self.pick.advance();
        proof {
            lemma_picked_on(old(self).pick, self.pick);
        }
        match step {
            PickStep::Ask(_) => {
                self.stage = ScanStage::Coins;
            },
            PickStep::Done => {
                self.spot = apply_averages(&self.pick.picked, &Vec::new());
                self.stage = ScanStage::CrossGaps;
                proof {
                    lemma_averaged_offers(self.spot@, self.pick.picked@, Seq::empty(), false);
                }
            },
        }
    }

    /// Takes in whether the coin that was asked about can be borrowed.
    pub fn on_coin(&mut self, available: bool)
        requires
            old(self).wf(),
            old(self).stage is Coins,
        ensures
            final(self).wf(),
            *final(self) == (ScanRun {
                stage: final(self).stage,
                pick: final(self).pick,
                spot: final(self).spot,
                ..*old(self)
            }),
            exists|answered: SpotPick| #[trigger]
                coin_answered(answered, old(self).pick, available) && final(self).picked_on(answered),
    {
        self.pick.on_answer(available);
        proof {
            lemma_coin_answered(self.pick, old(self).pick, available);
            assert(coin_answered(self.pick, old(self).pick, available));
        }
        self.go_on();
    }

    /// Takes in the average gaps of the routes over two contracts.
    pub fn on_cross_gaps(&mut self, averages: &Vec<Option<Double>>)
        requires
            old(self).wf(),
            old(self).stage is CrossGaps,
        ensures
            final(self).wf(),
            *final(self) == (ScanRun { stage: ScanStage::SpotGaps, cross: final(self).cross, ..*old(self) }),
            all_averaged(final(self).cross@, old(self).cross@, averages@),
    {
        let ghost before = self.cross@;
        self.cross = apply_averages(&self.cross, averages);
        self.stage = ScanStage::SpotGaps;
        proof {
            lemma_averaged_offers(self.cross@, before, averages@, true);
        }
    }

    /// Takes in the average gaps of the routes over a coin.
    pub fn on_spot_gaps(&mut self, averages: &Vec<Option<Double>>)
        requires
            old(self).wf(),
            old(self).stage is SpotGaps,
        ensures
            final(self).wf(),
            *final(self) == (ScanRun { stage: ScanStage::WideGaps, spot: final(self).spot, ..*old(self) }),
            all_averaged(final(self).spot@, old(self).spot@, averages@),
    {
        let ghost before = self.spot@;
        self.spot = apply_averages(&self.spot, averages);
        self.stage = ScanStage::WideGaps;
        proof {
            lemma_averaged_offers(self.spot@, before, averages@, false);
        }
    }

    /// Takes in the average gaps of the price gaps.
    pub fn on_wide_gaps(&mut self, averages: &Vec<Option<Double>>)
        requires
            old(self).wf(),
            old(self).stage is WideGaps,
        ensures
            final(self).wf(),
            *final(self) == (ScanRun { stage: ScanStage::Ready, gaps: final(self).gaps, ..*old(self) }),
            all_averaged(final(self).gaps@, old(self).gaps@, averages@),
    {
        let ghost before = self.gaps@;
        self.gaps = apply_averages(&self.gaps, averages);
        self.stage = ScanStage::Ready;
        proof {
            assert forall|i: int| 0 <= i < self.gaps@.len() implies gap_counts(#[trigger] self.gaps@[i]) by {
                assert(gap_counts(before[i]));
                assert(averaged(self.gaps@[i], before[i], average_at(averages@, i)));
            }
        }
    }

    /// The answer: what was found out, with the price gaps that are far enough
    /// from their average, the farthest first.
    pub fn finish(self, now: i64) -> (r: OpportunitiesResponse)
        requires
            self.wf(),
            self.stage is Ready,
        ensures
            is_answer(r, self, now),
            is_sound(r),
    {
        let ranked = rank(&self.gaps, Ranking::Gap, self.gaps.len());
        let response = OpportunitiesResponse {
            opportunities: self.cross,
            spot_opportunities: self.spot,
            spread_opportunities: ranked,
            updated_at: now,
            universe_size: self.universe,
            matched_pairs: self.matched,
            assumptions: FeeAssumptions {
                binance_taker_fee: Double { bits: BINANCE_FEE },
                bybit_taker_fee: Double { bits: BYBIT_FEE },
            },
        };
        proof {
            let n = self.gaps@.len();
            let order = choose|order: Seq<usize>| is_ranked(ranked@, self.gaps@, Ranking::Gap, order, n);
            assert(is_ranked(response.spread_opportunities@, self.gaps@, Ranking::Gap, order, n));
            lemma_ranked_gaps(ranked@, self.gaps@, order, n);
        }
        response
    }
}

/// Whether an answer is that of a search.
pub open spec fn is_answer(r: OpportunitiesResponse, run: ScanRun, now: i64) -> bool {
    &&& r.opportunities == run.cross
    &&& r.spot_opportunities == run.spot
    &&& exists|order: Seq<usize>|
        is_ranked(r.spread_opportunities@, run.gaps@, Ranking::Gap, order, run.gaps@.len())
    &&& r.updated_at == now
    &&& r.universe_size == run.universe
    &&& r.matched_pairs == run.matched
    &&& r.assumptions.binance_taker_fee == (Double { bits: BINANCE_FEE })
    &&& r.assumptions.bybit_taker_fee == (Double { bits: BYBIT_FEE })
}

/// Whether gaps are wide, and come in the order of how far they are from their
/// average, the farthest first.
pub open spec fn by_gap(offers: Seq<Opportunity>) -> bool {
    &&& forall|i: int|
        0 <= i < offers.len() ==> (Double { bits: SPREAD_OPPORTUNITY_ABSOLUTE_THRESHOLD }).lt_spec(
            (#[trigger] offers[i]).spread,
        ) && (Double { bits: SPREAD_OPPORTUNITY_DEVIATION_THRESHOLD }).lt_spec(offers[i].spread_vs_average)
    &&& forall|i: int, j: int|
        0 <= i <= j < offers.len() ==> (#[trigger] offers[j]).spread_vs_average.total_place() <= (
        #[trigger] offers[i]).spread_vs_average.total_place()
}

/// What holds of every answer: at most ten routes of either kind, from the
/// highest yield, all of which pay; gaps that are wide and far from their
/// average, from the farthest; and no more pairs than symbols.
pub open spec fn is_sound(r: OpportunitiesResponse) -> bool {
    &&& offerable(r.opportunities@, true)
    &&& offerable(r.spot_opportunities@, false)
    &&& by_gap(r.spread_opportunities@)
    &&& r.matched_pairs <= r.universe_size
}

/// Whether offers are others with their funding projected.
pub open spec fn all_reprojected(
    new: Seq<Opportunity>,
    old: Seq<Opportunity>,
    averages: Seq<Option<(Double, Double)>>,
    now: i64,
) -> bool {
    &&& new.len() == old.len()
    &&& forall|i: int|
        0 <= i < old.len() ==> reprojected(#[trigger] new[i], old[i], averages_at(averages, i), now)
}

/// Whether offers are others with the averages of their gaps.
pub open spec fn all_averaged(new: Seq<Opportunity>, old: Seq<Opportunity>, averages: Seq<Option<Double>>) -> bool {
    &&& new.len() == old.len()
    &&& forall|i: int| 0 <= i < old.len() ==> averaged(#[trigger] new[i], old[i], average_at(averages, i))
}

/// Whether the next candidate was picked or passed over.
pub open spec fn coin_answered(new: SpotPick, old: SpotPick, available: bool) -> bool {
    &&& new.candidates == old.candidates
    &&& new.next == old.next + 1
    &&& if available {
        &&& new.picked@.len() == old.picked@.len() + 1
        &&& new.picked@.drop_last() == old.picked@
        &&& new.picked@.last().copies(old.candidates@[old.next as int])
    } else {
        new.picked == old.picked
    }
}

proof fn lemma_kept_pays(new: Seq<Opportunity>, old: Seq<Opportunity>, costs: Seq<BorrowCost>, cross: bool, n: int)
    requires
        kept(new, old, costs, cross, n),
    ensures
        all_pay(new),
        of_kind(new, cross),
    decreases n,
{
    if n > 0 {
        let offer = old[n - 1];
        let cost = cost_at(costs, n - 1);
        if worthwhile(offer, cost) && (offer.route_type@ == "cross_perpetual"@) == cross {
            let before = new.drop_last();
            lemma_kept_pays(before, old, costs, cross, n - 1);
            assert(charged(new.last(), offer, cost));
            assert forall|i: int| 0 <= i < new.len() implies (Double { bits: ZERO }).lt_spec(
                (#[trigger] new[i]).funding_per_hour,
            ) && (new[i].route_type@ == "cross_perpetual"@) == cross by {
                if i < new.len() - 1 {
                    assert(new[i] == before[i]);
                }
            }
        } else {
            lemma_kept_pays(new, old, costs, cross, n - 1);
        }
    }
}

proof fn lemma_ranked_offers(
    new: Seq<Opportunity>,
    old: Seq<Opportunity>,
    ranking: Ranking,
    order: Seq<usize>,
    limit: nat,
    cross: bool,
)
    requires
        is_ranked(new, old, ranking, order, limit),
        !(ranking is Gap),
        of_kind(old, cross),
        ranking is PayingYield || all_pay(old),
    ensures
        new.len() <= limit,
        by_yield(new),
        all_pay(new),
        of_kind(new, cross),
{
    let places = eligible_places(old, ranking, old.len() as int);
    assert forall|i: int, j: int| 0 <= i <= j < new.len() implies (#[trigger] new[j]).apy.total_place() <= (
    #[trigger] new[i]).apy.total_place() by {
        lemma_ranked_from_the_best(new, old, ranking, order, limit, i, j);
        assert(rank_key(new[i], ranking) <= rank_key(new[j], ranking));
    }
    assert forall|i: int| 0 <= i < new.len() implies (Double { bits: ZERO }).lt_spec(
        (#[trigger] new[i]).funding_per_hour,
    ) && (new[i].route_type@ == "cross_perpetual"@) == cross by {
        lemma_ranked_from_the_best(new, old, ranking, order, limit, i, i);
        lemma_places_are_eligible(old, ranking, old.len() as int, order[i] as int);
        assert(new[i].copies(old[places[order[i] as int]]));
    }
}

proof fn lemma_ranked_gaps(new: Seq<Opportunity>, old: Seq<Opportunity>, order: Seq<usize>, limit: nat)
    requires
        is_ranked(new, old, Ranking::Gap, order, limit),
        gaps_count(old),
    ensures
        by_gap(new),
{
    let places = eligible_places(old, Ranking::Gap, old.len() as int);
    assert forall|i: int, j: int| 0 <= i <= j < new.len() implies (#[trigger] new[j]).spread_vs_average.total_place()
        <= (#[trigger] new[i]).spread_vs_average.total_place() by {
        lemma_ranked_from_the_best(new, old, Ranking::Gap, order, limit, i, j);
        assert(rank_key(new[i], Ranking::Gap) <= rank_key(new[j], Ranking::Gap));
    }
    assert forall|i: int| 0 <= i < new.len() implies (Double { bits: SPREAD_OPPORTUNITY_ABSOLUTE_THRESHOLD }).lt_spec(
        (#[trigger] new[i]).spread,
    ) && (Double { bits: SPREAD_OPPORTUNITY_DEVIATION_THRESHOLD }).lt_spec(new[i].spread_vs_average) by {
        lemma_ranked_from_the_best(new, old, Ranking::Gap, order, limit, i, i);
        lemma_places_are_eligible(old, Ranking::Gap, old.len() as int, order[i] as int);
        assert(new[i].copies(old[places[order[i] as int]]));
        assert(eligible(new[i], Ranking::Gap));
        assert(gap_counts(old[places[order[i] as int]]));
    }
}

proof fn lemma_averaged_offers(
    new: Seq<Opportunity>,
    old: Seq<Opportunity>,
    averages: Seq<Option<Double>>,
    cross: bool,
)
    requires
        all_averaged(new, old, averages),
        offerable(old, cross),
    ensures
        offerable(new, cross),
        averages.len() == 0 ==> forall|i: int| 0 <= i < new.len() ==> (#[trigger] new[i]).copies(old[i]),
{
    assert forall|i: int| 0 <= i < new.len() implies (#[trigger] new[i]).apy == old[i].apy && new[i].funding_per_hour
        == old[i].funding_per_hour && new[i].route_type == old[i].route_type by {
        assert(averaged(new[i], old[i], average_at(averages, i)));
    }
}

proof fn lemma_picked_on(before: SpotPick, after: SpotPick)
    requires
        before.wf(),
        after.wf(),
        by_yield(before.candidates@),
        all_pay(before.candidates@),
        of_kind(before.candidates@, false),
        offerable(before.picked@, false),
        picks_in_order(before),
        after.candidates == before.candidates,
        before.next <= after.next,
        after.picked@.len() == before.picked@.len() + (after.next - before.next),
        forall|i: int| 0 <= i < before.picked@.len() ==> #[trigger] after.picked@[i] == before.picked@[i],
        forall|i: int|
            before.next <= i < after.next ==> after.picked@[before.picked@.len() + i - before.next].copies(
                #[trigger] before.candidates@[i],
            ),
    ensures
        offerable(after.picked@, false),
        picks_in_order(after),
{
    let n = before.picked@.len() as int;
    assert forall|i: int| n <= i < after.picked@.len() implies (#[trigger] after.picked@[i]).copies(
        before.candidates@[before.next + i - n],
    ) by {
        let k = before.next + i - n;
        assert(after.picked@[n + k - before.next].copies(before.candidates@[k]));
    }
    assert forall|i: int, j: int| 0 <= i <= j < after.picked@.len() implies (
    #[trigger] after.picked@[j]).apy.total_place() <= (#[trigger] after.picked@[i]).apy.total_place() by {
        if j < n {
            assert(after.picked@[i] == before.picked@[i]);
            assert(after.picked@[j] == before.picked@[j]);
        } else if i < n {
            assert(after.picked@[i] == before.picked@[i]);
            assert(after.picked@[j].copies(before.candidates@[before.next + j - n]));
        } else {
            assert(after.picked@[i].copies(before.candidates@[before.next + i - n]));
            assert(after.picked@[j].copies(before.candidates@[before.next + j - n]));
        }
    }
    assert forall|i: int, k: int|
        0 <= i < after.picked@.len() && after.next <= k < after.candidates@.len() implies (
    #[trigger] after.candidates@[k]).apy.total_place() <= (#[trigger] after.picked@[i]).apy.total_place() by {
        if i < n {
            assert(after.picked@[i] == before.picked@[i]);
        } else {
            assert(after.picked@[i].copies(before.candidates@[before.next + i - n]));
        }
    }
    assert forall|i: int| 0 <= i < after.picked@.len() implies (Double { bits: ZERO }).lt_spec(
        (#[trigger] after.picked@[i]).funding_per_hour,
    ) && after.picked@[i].route_type@ != "cross_perpetual"@ by {
        if i < n {
            assert(after.picked@[i] == before.picked@[i]);
        } else {
            assert(after.picked@[i].copies(before.candidates@[before.next + i - n]));
        }
    }
}

proof fn lemma_coin_answered(after: SpotPick, before: SpotPick, available: bool)
    requires
        before.wf(),
        after.wf(),
        coin_answered(after, before, available),
        before.next < before.candidates@.len(),
        by_yield(before.candidates@),
        all_pay(before.candidates@),
        of_kind(before.candidates@, false),
        offerable(before.picked@, false),
        picks_in_order(before),
    ensures
        offerable(after.picked@, false),
        picks_in_order(after),
{
    let n = before.picked@.len() as int;
    if available {
        assert forall|i: int| 0 <= i < n implies #[trigger] after.picked@[i] == before.picked@[i] by {
            assert(after.picked@.drop_last()[i] == before.picked@[i]);
        }
        assert(after.picked@[n].copies(before.candidates@[before.next as int]));
        assert forall|i: int, j: int| 0 <= i <= j < after.picked@.len() implies (
        #[trigger] after.picked@[j]).apy.total_place() <= (#[trigger] after.picked@[i]).apy.total_place() by {
            if j < n {
                assert(after.picked@[i] == before.picked@[i]);
                assert(after.picked@[j] == before.picked@[j]);
            } else if i < n {
                assert(after.picked@[i] == before.picked@[i]);
            }
        }
        assert forall|i: int, k: int|
            0 <= i < after.picked@.len() && after.next <= k < after.candidates@.len() implies (
        #[trigger] after.candidates@[k]).apy.total_place() <= (#[trigger] after.picked@[i]).apy.total_place() by {
            if i < n {
                assert(after.picked@[i] == before.picked@[i]);
            } else {
                assert(before.candidates@[k].apy.total_place() <= before.candidates@[before.next as int].apy.total_place());
            }
        }
        assert forall|i: int| 0 <= i < after.picked@.len() implies (Double { bits: ZERO }).lt_spec(
            (#[trigger] after.picked@[i]).funding_per_hour,
        ) && after.picked@[i].route_type@ != "cross_perpetual"@ by {
            if i < n {
                assert(after.picked@[i] == before.picked@[i]);
            }
        }
    }
}

/// Every gap that a scan finds is wide.
proof fn lemma_gaps_count(found: Found, markets: Markets, n: int, now: i64)
    requires
        scanned_binance(found, markets, n, now),
        0 <= n <= markets.binance@.len(),
    ensures
        gaps_count(found.gaps),
    decreases n,
{
    if n > 0 {
        if counts(markets.binance@, n - 1) {
            let leg = markets.binance@[n - 1];
            let old = choose|old: Found|
                scanned_binance(old, markets, n - 1, now) && #[trigger] visited_binance(found, old, markets, leg, now);
            lemma_gaps_count(old, markets, n - 1, now);
            let other = last_of(markets.bybit@, leg.base@);
            if other is Some && found.gaps != old.gaps {
                let second = markets.bybit@[other->0];
                assert(spread_added(found.gaps, old.gaps, markets.tokens@, leg, second));
                let (token, r) = choose|token: Token, r: Option<Opportunity>|
                    crate::market::routes::is_classified(
                        token,
                        leg.base@,
                        crate::market::scan::listed_as(markets.tokens@, leg.base@),
                        leg,
                        second,
                    ) && #[trigger] is_spread_offer(r, token, leg, second) && found.gaps == with_some(old.gaps, r);
                assert forall|i: int| 0 <= i < found.gaps.len() implies gap_counts(#[trigger] found.gaps[i]) by {
                    if i < old.gaps.len() {
                        assert(found.gaps[i] == old.gaps[i]);
                    }
                }
            }
        } else {
            lemma_gaps_count(found, markets, n - 1, now);
        }
    }
}

/// The base that `last_of` finds is the one that was looked for, and its leg
/// counts.
proof fn lemma_last_of(legs: Seq<Leg>, base: Seq<char>)
    ensures
        last_of(legs, base) matches Some(i) ==> 0 <= i < legs.len() && legs[i].base@ == base && counts(legs, i),
    decreases legs.len(),
{
    if legs.len() > 0 && legs.last().base@ != base {
        lemma_last_of(legs.drop_last(), base);
    }
}

/// The bases that count among the first `n` legs.
proof fn lemma_counted_bases(legs: Seq<Leg>, n: int) -> (s: Set<Seq<char>>)
    requires
        0 <= n <= legs.len(),
    ensures
        s.finite(),
        s.len() == counted(legs, n),
        forall|i: int| 0 <= i < n && counts(legs, i) ==> s.contains((#[trigger] legs[i]).base@),
        forall|b: Seq<char>| #[trigger] s.contains(b) ==> exists|i: int|
            0 <= i < n && counts(legs, i) && (#[trigger] legs[i]).base@ == b,
    decreases n,
{
    if n <= 0 {
        Set::empty()
    } else {
        let before = lemma_counted_bases(legs, n - 1);
        if counts(legs, n - 1) {
            let base = legs[n - 1].base@;
            assert(!before.contains(base));
            let s = before.insert(base);
            assert forall|b: Seq<char>| #[trigger] s.contains(b) implies exists|i: int|
                0 <= i < n && counts(legs, i) && (#[trigger] legs[i]).base@ == b by {
                if b == base {
                    assert(legs[n - 1].base@ == b);
                } else {
                    assert(before.contains(b));
                }
            }
            s
        } else {
            before
        }
    }
}

/// The bases that a scan matched.
proof fn lemma_matched_bases(found: Found, markets: Markets, n: int, now: i64) -> (s: Set<Seq<char>>)
    requires
        scanned_binance(found, markets, n, now),
        0 <= n <= markets.binance@.len(),
    ensures
        s.finite(),
        s.len() == found.matched,
        forall|b: Seq<char>| #[trigger] s.contains(b) ==> last_of(markets.bybit@, b) is Some && exists|i: int|
            0 <= i < n && counts(markets.binance@, i) && (#[trigger] markets.binance@[i]).base@ == b,
    decreases n,
{
    if n <= 0 {
        Set::empty()
    } else if counts(markets.binance@, n - 1) {
        let leg = markets.binance@[n - 1];
        let old = choose|old: Found|
            scanned_binance(old, markets, n - 1, now) && #[trigger] visited_binance(found, old, markets, leg, now);
        let before = lemma_matched_bases(old, markets, n - 1, now);
        if found.matched == old.matched {
            before
        } else {
            let s = before.insert(leg.base@);
            assert(!before.contains(leg.base@));
            assert forall|b: Seq<char>| #[trigger] s.contains(b) implies last_of(markets.bybit@, b) is Some && exists|
                i: int,
            |
                0 <= i < n && counts(markets.binance@, i) && (#[trigger] markets.binance@[i]).base@ == b by {
                if b == leg.base@ {
                    assert(markets.binance@[n - 1].base@ == b);
                } else {
                    assert(before.contains(b));
                }
            }
            s
        }
    } else {
        lemma_matched_bases(found, markets, n - 1, now)
    }
}

/// A scan matches no more symbols than either exchange has, so no more than
/// there are in all.
proof fn lemma_matched_fits(found: Found, markets: Markets, now: i64)
    requires
        scanned_binance(found, markets, markets.binance@.len() as int, now),
    ensures
        found.matched <= counted(markets.binance@, markets.binance@.len() as int),
        found.matched <= counted(markets.bybit@, markets.bybit@.len() as int),
{
    let n = markets.binance@.len() as int;
    let m = markets.bybit@.len() as int;
    let s = lemma_matched_bases(found, markets, n, now);
    let first = lemma_counted_bases(markets.binance@, n);
    let second = lemma_counted_bases(markets.bybit@, m);
    assert forall|b: Seq<char>| #[trigger] s.contains(b) implies second.contains(b) by {
        lemma_last_of(markets.bybit@, b);
        let j = last_of(markets.bybit@, b)->0;
        assert(markets.bybit@[j].base@ == b);
    }
    assert forall|b: Seq<char>| #[trigger] s.contains(b) implies first.contains(b) by {
        let i = choose|i: int|
            0 <= i < n && counts(markets.binance@, i) && (#[trigger] markets.binance@[i]).base@ == b;
        assert(first.contains(markets.binance@[i].base@));
    }
    vstd::set_lib::lemma_len_subset(s, second);
    vstd::set_lib::lemma_len_subset(s, first);
}

} // verus!
