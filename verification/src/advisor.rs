//! Advice: when to enter a route, and when to take the profit of one.

use crate::market::projection::{hour_start, period_start, HOUR_MILLIS};
use crate::models::{Opportunity, Position};
use crate::num::constants::{BINANCE_FEE, BYBIT_FEE, HUNDRED, HUNDREDTH, ZERO};
use crate::num::about::{
    about, fine, lemma_about_itself, lemma_about_product, lemma_about_same_sum, lemma_difference_is_near,
    lemma_sum_is_near, one, sized,
};
use crate::num::double::{lemma_sub_self, size, ONE_EXPONENT};
use crate::num::order::{lemma_neg_turns, lemma_product_sign, lemma_sub_monotone, lemma_sum_monotone, positive};
use crate::num::rounding::{lemma_units_at, lemma_units_increase, BINADE};
use crate::num::Double;
use crate::sorting::{is_stable_order, lemma_contains, stable_order};
use crate::text::{digits, digits_text, join, lower, same, same_ignoring_case};
use vstd::arithmetic::power2::{
    lemma2_to64_rest, lemma_pow2_adds, lemma_pow2_pos, lemma_pow2_strictly_increases, pow2,
};
use vstd::prelude::*;

verus! {

/// How long before a settlement an entry is advised.
pub const ENTRY_WINDOW_MILLIS: i64 = 300000;

/// How far from the full hour a settlement may be.
pub const SETTLEMENT_TIME_TOLERANCE_MILLIS: i64 = 60000;

/// The share of the notional value that a profit has to exceed.
pub const TAKE_PROFIT_RATIO: u64 = HUNDREDTH;

/// How many of the best routes an entry is picked from.
pub const ENTRY_CANDIDATES: usize = 10;

/// The route to enter.
#[derive(Debug)]
pub struct EntryRecommendation {
    pub opportunity_id: String,
    pub token: String,
    pub long_exchange: String,
    pub short_exchange: String,
    pub apy_percent: Double,
    pub break_even_hours: Double,
    pub spread_percent: Double,
    pub average_spread_24h_percent: Double,
    pub spread_vs_average_percent: Double,
    pub long_next_funding_time: i64,
    pub short_next_funding_time: i64,
    pub apy_rank: usize,
}

impl Clone for EntryRecommendation {
    fn clone(&self) -> (r: Self)
        ensures
            r == *self,
    {
        EntryRecommendation {
            opportunity_id: self.opportunity_id.clone(),
            token: self.token.clone(),
            long_exchange: self.long_exchange.clone(),
            short_exchange: self.short_exchange.clone(),
            apy_percent: self.apy_percent,
            break_even_hours: self.break_even_hours,
            spread_percent: self.spread_percent,
            average_spread_24h_percent: self.average_spread_24h_percent,
            spread_vs_average_percent: self.spread_vs_average_percent,
            long_next_funding_time: self.long_next_funding_time,
            short_next_funding_time: self.short_next_funding_time,
            apy_rank: self.apy_rank,
        }
    }
}

/// What to do with a position.
#[derive(Debug)]
pub struct PositionRecommendation {
    pub position_id: String,
    pub token: String,
    pub action: String,
    pub funding_received_usdt: Double,
    pub unrealized_pnl_usdt: Double,
    pub estimated_fees_usdt: Double,
    pub net_profit_usdt: Double,
    pub combined_notional_usdt: Double,
    pub take_profit_threshold_usdt: Double,
    pub take_profit_allowed: bool,
}

impl Clone for PositionRecommendation {
    fn clone(&self) -> (r: Self)
        ensures
            r == *self,
    {
        PositionRecommendation {
            position_id: self.position_id.clone(),
            token: self.token.clone(),
            action: self.action.clone(),
            funding_received_usdt: self.funding_received_usdt,
            unrealized_pnl_usdt: self.unrealized_pnl_usdt,
            estimated_fees_usdt: self.estimated_fees_usdt,
            net_profit_usdt: self.net_profit_usdt,
            combined_notional_usdt: self.combined_notional_usdt,
            take_profit_threshold_usdt: self.take_profit_threshold_usdt,
            take_profit_allowed: self.take_profit_allowed,
        }
    }
}

/// What is advised.
#[derive(Debug)]
pub struct AdvisorResponse {
    pub action: String,
    pub generated_at: i64,
    pub next_settlement_at: i64,
    pub entry_window_open: bool,
    pub reason: String,
    pub entry: Option<EntryRecommendation>,
    pub positions: Vec<PositionRecommendation>,
}

impl AdvisorResponse {
    /// Whether a piece of advice is a copy of another one.
    pub open spec fn copies(self, other: AdvisorResponse) -> bool {
        &&& self == (AdvisorResponse { positions: self.positions, ..other })
        &&& self.positions@ == other.positions@
    }
}

impl Clone for AdvisorResponse {
    fn clone(&self) -> (r: Self)
        ensures
            r.copies(*self),
    {
        let mut positions: Vec<PositionRecommendation> = Vec::new();
        let mut i: usize = 0;
        while i < self.positions.len()
            invariant
                i <= self.positions@.len(),
                positions@ == self.positions@.take(i as int),
            decreases self.positions@.len() - i,
        {
            positions.push(self.positions[i].clone());
            proof {
                assert(positions@ =~= self.positions@.take(i as int + 1));
            }
            i = i + 1;
        }
        proof {
            assert(self.positions@.take(self.positions@.len() as int) =~= self.positions@);
        }
        AdvisorResponse {
            action: self.action.clone(),
            generated_at: self.generated_at,
            next_settlement_at: self.next_settlement_at,
            entry_window_open: self.entry_window_open,
            reason: self.reason.clone(),
            entry: match &self.entry {
                Some(e) => Some(e.clone()),
                None => None,
            },
            positions,
        }
    }
}

/// The fee of an exchange.
pub open spec fn fee_of(exchange: Seq<char>) -> Double {
    if lower(exchange) == lower("Binance"@) {
        Double { bits: BINANCE_FEE }
    } else {
        Double { bits: BYBIT_FEE }
    }
}

fn fee_rate(exchange: &str) -> (r: Double)
    ensures
        r == fee_of(exchange@),
{
    if same_ignoring_case(exchange, "Binance") {
        Double { bits: BINANCE_FEE }
    } else {
        Double { bits: BYBIT_FEE }
    }
}

/// The value of both legs of a position at their marks.
pub open spec fn combined_notional(position: Position) -> Double {
    position.long.quantity.mul_spec(position.long.mark_price).add_spec(
        position.short.quantity.mul_spec(position.short.mark_price),
    )
}

/// The fees for having entered a position and for leaving it.
pub open spec fn estimated_fees(position: Position) -> Double {
    let long_fee = fee_of(position.long.exchange@);
    let short_fee = fee_of(position.short.exchange@);
    let entry = position.long.quantity.mul_spec(position.long.entry_price).mul_spec(long_fee).add_spec(
        position.short.quantity.mul_spec(position.short.entry_price).mul_spec(short_fee),
    );
    let exit = position.long.quantity.mul_spec(position.long.mark_price).mul_spec(long_fee).add_spec(
        position.short.quantity.mul_spec(position.short.mark_price).mul_spec(short_fee),
    );
    entry.add_spec(exit)
}

/// What a position has earned after fees.
pub open spec fn net_profit(position: Position) -> Double {
    position.funding_earned.add_spec(position.unrealized_pnl).sub_spec(estimated_fees(position))
}

/// Whether the profit of a position may be taken: it is above one percent of the
/// value of both legs.
pub open spec fn may_take_profit(position: Position) -> bool {
    let notional = combined_notional(position);
    (Double { bits: ZERO }).lt_spec(notional) && notional.mul_spec(
        Double { bits: TAKE_PROFIT_RATIO },
    ).lt_spec(net_profit(position))
}

/// What a piece of advice is called.
pub open spec fn profit_action(allowed: bool) -> Seq<char> {
    if allowed {
        "take_profit_allowed"@
    } else {
        "hold"@
    }
}

/// Whether this is the advice for a position.
pub open spec fn advises(r: PositionRecommendation, position: Position) -> bool {
    &&& r.position_id@ == position.id@
    &&& r.token@ == position.token@
    &&& r.action@ == profit_action(may_take_profit(position))
    &&& r.funding_received_usdt == position.funding_earned
    &&& r.unrealized_pnl_usdt == position.unrealized_pnl
    &&& r.estimated_fees_usdt == estimated_fees(position)
    &&& r.net_profit_usdt == net_profit(position)
    &&& r.combined_notional_usdt == combined_notional(position)
    &&& r.take_profit_threshold_usdt == combined_notional(position).mul_spec(
        Double { bits: TAKE_PROFIT_RATIO },
    )
    &&& r.take_profit_allowed == may_take_profit(position)
}

/// The advice for a position.
pub fn evaluate_position(position: &Position) -> (r: PositionRecommendation)
    ensures
        advises(r, *position),
{
    let long_fee = fee_rate(position.long.exchange.as_str());
    let short_fee = fee_rate(position.short.exchange.as_str());
    let long_notional = position.long.quantity.mul(position.long.mark_price);
    let short_notional = position.short.quantity.mul(position.short.mark_price);
    let combined = long_notional.add(short_notional);
    let entry_fees = position.long.quantity.mul(position.long.entry_price).mul(long_fee).add(
        position.short.quantity.mul(position.short.entry_price).mul(short_fee),
    );
    let exit_fees = long_notional.mul(long_fee).add(short_notional.mul(short_fee));
    let fees = entry_fees.add(exit_fees);
    let net = position.funding_earned.add(position.unrealized_pnl).sub(fees);
    let threshold = combined.mul(Double { bits: TAKE_PROFIT_RATIO });
    let allowed: bool = combined.gt(Double { bits: ZERO }) && net.gt(threshold);
    PositionRecommendation {
        position_id: position.id.clone(),
        token: position.token.clone(),
        action: if allowed {
            "take_profit_allowed".to_owned()
        } else {
            "hold".to_owned()
        },
        funding_received_usdt: position.funding_earned,
        unrealized_pnl_usdt: position.unrealized_pnl,
        estimated_fees_usdt: fees,
        net_profit_usdt: net,
        combined_notional_usdt: combined,
        take_profit_threshold_usdt: threshold,
        take_profit_allowed: allowed,
    }
}

/// Whether a settlement takes place when it is expected, up to a minute.
pub open spec fn settles_near(actual: i64, expected: i64) -> bool {
    -SETTLEMENT_TIME_TOLERANCE_MILLIS <= actual - expected <= SETTLEMENT_TIME_TOLERANCE_MILLIS
}

/// Whether a settlement takes place when it is expected, up to a minute.
pub fn settles_at(actual: i64, expected: i64) -> (b: bool)
    ensures
        b == settles_near(actual, expected),
{
    let gap: i128 = actual as i128 - expected as i128;
    -(SETTLEMENT_TIME_TOLERANCE_MILLIS as i128) <= gap && gap <= SETTLEMENT_TIME_TOLERANCE_MILLIS as i128
}

/// The next full hour.
pub open spec fn next_hour(now: i64) -> int {
    period_start(now as int, HOUR_MILLIS as int) + HOUR_MILLIS
}

/// Whether an entry may be advised.
pub open spec fn window_open(now: i64) -> bool {
    next_hour(now) - ENTRY_WINDOW_MILLIS <= now
}

/// Whether both legs of a route settle at a time.
pub open spec fn both_settle(offer: Opportunity, at: i64) -> bool {
    settles_near(offer.long.next_funding_time, at) && settles_near(offer.short.next_funding_time, at)
}

/// The places of the routes both of whose legs settle at a time.
pub open spec fn settling(offers: Seq<Opportunity>, at: i64, n: int) -> Seq<int>
    decreases n,
{
    if n <= 0 {
        Seq::empty()
    } else if both_settle(offers[n - 1], at) {
        settling(offers, at, n - 1).push(n - 1)
    } else {
        settling(offers, at, n - 1)
    }
}

/// By what the settling routes are ranked: the highest yield first.
pub open spec fn yield_keys(offers: Seq<Opportunity>, places: Seq<int>) -> Seq<i128> {
    Seq::new(places.len(), |i: int| (-offers[places[i]].apy.total_place()) as i128)
}

/// Whether one route is to be entered rather than another one: it breaks even
/// sooner, or as soon and yields more.
pub open spec fn preferred(one: Opportunity, other: Opportunity) -> bool {
    let a = one.break_even_hours.total_place();
    let b = other.break_even_hours.total_place();
    a < b || (a == b && other.apy.total_place() < one.apy.total_place())
}

/// Whether a route is the one to enter of the first ten of a ranking: the first
/// that no other one is to be preferred to.
pub open spec fn picked(offers: Seq<Opportunity>, places: Seq<int>, order: Seq<usize>, k: int) -> bool {
    let count = if order.len() < ENTRY_CANDIDATES {
        order.len() as int
    } else {
        ENTRY_CANDIDATES as int
    };
    &&& 0 <= k < count
    &&& forall|j: int|
        0 <= j < k ==> preferred(offers[places[order[k] as int]], offers[#[trigger] places[order[j] as int]])
    &&& forall|j: int|
        k < j < count ==> !preferred(
            offers[#[trigger] places[order[j] as int]],
            offers[places[order[k] as int]],
        )
}

/// Whether this advises entering a route of a rank.
pub open spec fn enters(entry: EntryRecommendation, offer: Opportunity, rank: int) -> bool {
    let hundred = Double { bits: HUNDRED };
    &&& entry.opportunity_id@ == offer.id@
    &&& entry.token@ == offer.token.symbol@
    &&& entry.long_exchange@ == offer.long.exchange@
    &&& entry.short_exchange@ == offer.short.exchange@
    &&& entry.apy_percent == offer.apy.mul_spec(hundred)
    &&& entry.break_even_hours == offer.break_even_hours
    &&& entry.spread_percent == offer.spread.mul_spec(hundred)
    &&& entry.average_spread_24h_percent == offer.average_spread_24h.mul_spec(hundred)
    &&& entry.spread_vs_average_percent == offer.spread_vs_average.mul_spec(hundred)
    &&& entry.long_next_funding_time == offer.long.next_funding_time
    &&& entry.short_next_funding_time == offer.short.next_funding_time
    &&& entry.apy_rank == rank
}

/// How many of some positions may take their profit.
pub open spec fn profitable(positions: Seq<Position>) -> nat
    decreases positions.len(),
{
    if positions.len() == 0 {
        0
    } else {
        profitable(positions.drop_last()) + if may_take_profit(positions.last()) {
            1nat
        } else {
            0nat
        }
    }
}

/// Why the profit of positions may be taken or not.
pub open spec fn profit_reason(count: nat) -> Seq<char> {
    if count > 0 {
        digits(count) + " 个持仓的净收益已超过双腿名义价值之和的 1%"@
    } else {
        "已有持仓，继续监控资金费、未实现盈亏与退出手续费"@
    }
}

/// Whether this is the advice on an entry.
pub open spec fn advises_entry(r: AdvisorResponse, now: i64, offers: Seq<Opportunity>) -> bool {
    let at = next_hour(now) as i64;
    let places = settling(offers, at, offers.len() as int);
    &&& r.positions@.len() == 0
    &&& if !window_open(now) {
        r.action@ == "hold"@ && r.reason@ == "当前不在整点前 5 分钟的入场推荐窗口"@ && r.entry is None
    } else if places.len() == 0 {
        r.action@ == "hold"@ && r.reason@ == "没有找到两条腿都在下一整点结算的套利机会"@
            && r.entry is None
    } else {
        &&& r.action@ == "enter"@
        &&& r.reason@
            == "在下一整点结算的 APY 前 10 名中选择回本最快者；回本相同时选择 APY 更高者"@
        &&& r.entry is Some
        &&& exists|order: Seq<usize>, k: int| #[trigger]
            is_stable_order(order, yield_keys(offers, places)) && #[trigger] picked(offers, places, order, k)
                && enters(r.entry->0, offers[places[order[k] as int]], k + 1)
    }
}

/// Whether this is the advice on positions.
pub open spec fn advises_positions(r: AdvisorResponse, positions: Seq<Position>) -> bool {
    &&& r.entry is None
    &&& r.positions@.len() == positions.len()
    &&& forall|i: int| 0 <= i < positions.len() ==> advises(#[trigger] r.positions@[i], positions[i])
    &&& r.action@ == profit_action(profitable(positions) > 0)
    &&& r.reason@ == profit_reason(profitable(positions))
}

/// Whether this is the advice at a time.
pub open spec fn is_advice(
    r: AdvisorResponse,
    now: i64,
    offers: Seq<Opportunity>,
    positions: Seq<Position>,
) -> bool {
    &&& r.generated_at == now
    &&& r.next_settlement_at == next_hour(now)
    &&& r.entry_window_open == window_open(now)
    &&& if positions.len() > 0 {
        advises_positions(r, positions)
    } else {
        advises_entry(r, now, offers)
    }
}

fn hold(now: i64, at: i64, open: bool, reason: &str) -> (r: AdvisorResponse)
    ensures
        r.generated_at == now,
        r.next_settlement_at == at,
        r.entry_window_open == open,
        r.positions@.len() == 0,
        r.entry is None,
        r.action@ == "hold"@,
        r.reason@ == reason@,
{
    AdvisorResponse {
        action: "hold".to_owned(),
        generated_at: now,
        next_settlement_at: at,
        entry_window_open: open,
        reason: reason.to_owned(),
        entry: None,
        positions: Vec::new(),
    }
}

/// The place in a ranking of the route to enter.
fn pick(offers: &Vec<Opportunity>, places: &Vec<usize>, order: &Vec<usize>, Ghost(spots): Ghost<Seq<int>>) -> (k: usize)
    requires
        order@.len() > 0,
        spots.len() == places@.len(),
        forall|i: int| 0 <= i < places@.len() ==> (#[trigger] places@[i]) < offers@.len() && spots[i] == places@[i],
        forall|i: int| 0 <= i < order@.len() ==> (#[trigger] order@[i]) < places@.len(),
    ensures
        picked(offers@, spots, order@, k as int),
{
    let mut k: usize = 0;
    let mut i: usize = 1;
    while i < order.len() && i < ENTRY_CANDIDATES
        invariant
            k < i <= order@.len(),
            i <= ENTRY_CANDIDATES,
            spots.len() == places@.len(),
            forall|j: int|
                0 <= j < places@.len() ==> (#[trigger] places@[j]) < offers@.len() && spots[j] == places@[j],
            forall|j: int| 0 <= j < order@.len() ==> (#[trigger] order@[j]) < places@.len(),
            forall|j: int|
                0 <= j < k ==> preferred(
                    offers@[spots[order@[k as int] as int]],
                    offers@[#[trigger] spots[order@[j] as int]],
                ),
            forall|j: int|
                k < j < i ==> !preferred(
                    offers@[#[trigger] spots[order@[j] as int]],
                    offers@[spots[order@[k as int] as int]],
                ),
        decreases order@.len() - i,
    {
        let one = &offers[places[order[i]]];
        let other = &offers[places[order[k]]];
        proof {
            assert(spots[order@[i as int] as int] == places@[order@[i as int] as int]);
            assert(spots[order@[k as int] as int] == places@[order@[k as int] as int]);
        }
        let a: i128 = one.break_even_hours.total_key();
        let b: i128 = other.break_even_hours.total_key();
        if a < b || (a == b && other.apy.total_key() < one.apy.total_key()) {
            k = i;
        }
        i = i + 1;
    }
    k
}

fn advise_entry(now: i64, at: i64, open: bool, offers: &Vec<Opportunity>) -> (r: AdvisorResponse)
    requires
        at == next_hour(now),
        open == window_open(now),
    ensures
        is_advice(r, now, offers@, Seq::<Position>::empty()),
{
    if !open {
        return hold(now, at, open, "当前不在整点前 5 分钟的入场推荐窗口");
    }
    let mut places: Vec<usize> = Vec::new();
    let mut keys: Vec<i128> = Vec::new();
    let mut i: usize = 0;
    while i < offers.len()
        invariant
            i <= offers@.len(),
            places@.len() == keys@.len(),
            places@.len() == settling(offers@, at, i as int).len(),
            forall|k: int|
                0 <= k < places@.len() ==> (#[trigger] places@[k]) < i && places@[k] == settling(
                    offers@,
                    at,
                    i as int,
                )[k],
            forall|k: int|
                0 <= k < keys@.len() ==> #[trigger] keys@[k] == -offers@[places@[k] as int].apy.total_place(),
        decreases offers@.len() - i,
    {
        let offer = &offers[i];
        if settles_at(offer.long.next_funding_time, at) && settles_at(offer.short.next_funding_time, at) {
            let key: i128 = offer.apy.total_key();
            places.push(i);
            keys.push(-key);
        }
        i = i + 1;
    }
    let ghost spots = settling(offers@, at, offers@.len() as int);
    proof {
        assert(keys@ =~= yield_keys(offers@, spots));
    }
    if places.len() == 0 {
        return hold(now, at, open, "没有找到两条腿都在下一整点结算的套利机会");
    }
    let order = stable_order(&keys);
    let k = pick(offers, &places, &order, Ghost(spots));
    let offer = &offers[places[order[k]]];
    proof {
        assert(spots[order@[k as int] as int] == places@[order@[k as int] as int]);
    }
    let hundred = Double { bits: HUNDRED };
    AdvisorResponse {
        action: "enter".to_owned(),
        generated_at: now,
        next_settlement_at: at,
        entry_window_open: open,
        reason: "在下一整点结算的 APY 前 10 名中选择回本最快者；回本相同时选择 APY 更高者".to_owned(),
        entry: Some(
            EntryRecommendation {
                opportunity_id: offer.id.clone(),
                token: offer.token.symbol.clone(),
                long_exchange: offer.long.exchange.clone(),
                short_exchange: offer.short.exchange.clone(),
                apy_percent: offer.apy.mul(hundred),
                break_even_hours: offer.break_even_hours,
                spread_percent: offer.spread.mul(hundred),
                average_spread_24h_percent: offer.average_spread_24h.mul(hundred),
                spread_vs_average_percent: offer.spread_vs_average.mul(hundred),
                long_next_funding_time: offer.long.next_funding_time,
                short_next_funding_time: offer.short.next_funding_time,
                apy_rank: k + 1,
            },
        ),
        positions: Vec::new(),
    }
}

/// What is advised at a time: on the positions where there are any, otherwise on
/// an entry.
pub fn evaluate(now: i64, offers: &Vec<Opportunity>, positions: &Vec<Position>) -> (r: AdvisorResponse)
    requires
        next_hour(now) <= i64::MAX,
    ensures
        is_advice(r, now, offers@, positions@),
{
    let at: i64 = (hour_start(now) + HOUR_MILLIS) as i64;
    let open: bool = now as i128 >= at as i128 - ENTRY_WINDOW_MILLIS as i128;
    if positions.len() == 0 {
        proof {
            assert(positions@ =~= Seq::<Position>::empty());
        }
        return advise_entry(now, at, open, offers);
    }
    let mut list: Vec<PositionRecommendation> = Vec::new();
    let mut allowed: usize = 0;
    let mut i: usize = 0;
    proof {
        assert(positions@.take(0) =~= Seq::<Position>::empty());
    }
    while i < positions.len()
        invariant
            i <= positions@.len(),
            list@.len() == i,
            allowed <= i,
            allowed == profitable(positions@.take(i as int)),
            forall|k: int| 0 <= k < i ==> advises(#[trigger] list@[k], positions@[k]),
        decreases positions@.len() - i,
    {
        proof {
            assert(positions@.take(i as int + 1).drop_last() =~= positions@.take(i as int));
            assert(positions@.take(i as int + 1).last() == positions@[i as int]);
        }
        let r = evaluate_position(&positions[i]);
        if r.take_profit_allowed {
            allowed = allowed + 1;
        }
        list.push(r);
        i = i + 1;
    }
    proof {
        assert(positions@.take(positions@.len() as int) =~= positions@);
    }
    AdvisorResponse {
        action: if allowed > 0 {
            "take_profit_allowed".to_owned()
        } else {
            "hold".to_owned()
        },
        generated_at: now,
        next_settlement_at: at,
        entry_window_open: open,
        reason: if allowed > 0 {
            join(
                digits_text(allowed as u128).as_str(),
                " 个持仓的净收益已超过双腿名义价值之和的 1%",
            )
        } else {
            "已有持仓，继续监控资金费、未实现盈亏与退出手续费".to_owned()
        },
        entry: None,
        positions: list,
    }
}

/// The advisor: the last advice that asked for something to be done.
pub struct AdvisorService {
    pub latest_actionable: Option<AdvisorResponse>,
}

impl AdvisorService {
    /// An advisor that goes on from what was kept.
    pub fn new(latest_actionable: Option<AdvisorResponse>) -> (advisor: AdvisorService)
        ensures
            advisor.latest_actionable == latest_actionable,
    {
        AdvisorService { latest_actionable }
    }

    /// What is advised at a time. Advice that asks for something to be done is
    /// kept.
    pub fn recommendation(&mut self, now: i64, offers: &Vec<Opportunity>, positions: &Vec<Position>) -> (r:
        AdvisorResponse)
        requires
            next_hour(now) <= i64::MAX,
        ensures
            is_advice(r, now, offers@, positions@),
            if r.action@ == "hold"@ {
                final(self).latest_actionable == old(self).latest_actionable
            } else {
                final(self).latest_actionable is Some && (final(self).latest_actionable->0).copies(r)
            },
    {
        let r = evaluate(now, offers, positions);
        if !same(r.action.as_str(), "hold") {
            self.latest_actionable = Some(r.clone());
        }
        r
    }

    /// The last advice that asked for something to be done.
    pub fn latest_actionable(&self) -> (r: Option<AdvisorResponse>)
        ensures
            r is Some == self.latest_actionable is Some,
            r is Some ==> (r->0).copies(self.latest_actionable->0),
    {
        match &self.latest_actionable {
            Some(r) => Some(r.clone()),
            None => None,
        }
    }
}

/// An entry is advised only in the last five minutes before a full hour, and
/// only where nothing is held.
pub proof fn lemma_entry_only_in_window(
    r: AdvisorResponse,
    now: i64,
    offers: Seq<Opportunity>,
    positions: Seq<Position>,
)
    requires
        is_advice(r, now, offers, positions),
        r.entry is Some,
    ensures
        positions.len() == 0,
        next_hour(now) - ENTRY_WINDOW_MILLIS <= now < next_hour(now),
{
    vstd::arithmetic::div_mod::lemma_fundamental_div_mod(now as int, HOUR_MILLIS as int);
    assert((now as int) % (HOUR_MILLIS as int) == now - period_start(now as int, HOUR_MILLIS as int)) by {
        vstd::arithmetic::mul::lemma_mul_is_commutative(now as int / HOUR_MILLIS as int, HOUR_MILLIS as int);
    }
}

/// The places of routes both of whose legs settle are those, and all of them.
proof fn lemma_settling(offers: Seq<Opportunity>, at: i64, n: int)
    requires
        0 <= n <= offers.len(),
    ensures
        forall|i: int|
            0 <= i < settling(offers, at, n).len() ==> 0 <= #[trigger] settling(offers, at, n)[i] < n && both_settle(
                offers[settling(offers, at, n)[i]],
                at,
            ),
        forall|j: int|
            0 <= j < n && both_settle(#[trigger] offers[j], at) ==> settling(offers, at, n).contains(j),
    decreases n,
{
    if n > 0 {
        lemma_settling(offers, at, n - 1);
        let before = settling(offers, at, n - 1);
        let all = settling(offers, at, n);
        assert forall|j: int| 0 <= j < n && both_settle(#[trigger] offers[j], at) implies all.contains(j) by {
            if j < n - 1 {
                let i = choose|i: int| 0 <= i < before.len() && before[i] == j;
                assert(all[i] == j);
            } else {
                assert(all[before.len() as int] == j);
            }
        }
        assert forall|i: int| 0 <= i < all.len() implies 0 <= #[trigger] all[i] < n && both_settle(
            offers[all[i]],
            at,
        ) by {
            if i < before.len() {
                assert(all[i] == before[i]);
            }
        }
    }
}

/// Whether a time is the next full hour, up to a minute.
pub open spec fn is_on_the_hour(at: i64, now: i64) -> bool {
    -60_000 <= at - ((now as int / 3_600_000) * 3_600_000 + 3_600_000) <= 60_000
}

/// The route that is advised settles on both legs at the next full hour, and no other
/// one that does breaks even sooner, unless more than ten do.
pub proof fn lemma_the_entry_settles_next_and_breaks_even_first(
    r: AdvisorResponse,
    now: i64,
    offers: Seq<Opportunity>,
    entry: EntryRecommendation,
    j: int,
)
    requires
        advises_entry(r, now, offers),
        r.entry == Some(entry),
        i64::MIN <= next_hour(now) <= i64::MAX,
        0 <= j < offers.len(),
        is_on_the_hour(offers[j].long.next_funding_time, now),
        is_on_the_hour(offers[j].short.next_funding_time, now),
    ensures
        is_on_the_hour(entry.long_next_funding_time, now),
        is_on_the_hour(entry.short_next_funding_time, now),
        settling(offers, next_hour(now) as i64, offers.len() as int).len() <= 10 ==> entry.break_even_hours.total_place()
            <= offers[j].break_even_hours.total_place(),
{
    let at = next_hour(now) as i64;
    let places = settling(offers, at, offers.len() as int);
    lemma_settling(offers, at, offers.len() as int);
    assert(both_settle(offers[j], at));
    assert(places.contains(j));
    let (order, k) = choose|order: Seq<usize>, k: int| #[trigger]
        is_stable_order(order, yield_keys(offers, places)) && #[trigger] picked(offers, places, order, k) && enters(
            r.entry->0,
            offers[places[order[k] as int]],
            k + 1,
        );
    assert(order[k] < places.len());
    let best = places[order[k] as int];
    assert(both_settle(offers[best], at));
    if places.len() <= 10 {
        let i = choose|i: int| 0 <= i < places.len() && places[i] == j;
        let t = lemma_contains(order, yield_keys(offers, places).len(), i as usize);
        if t < k {
            assert(preferred(offers[places[order[k] as int]], offers[places[order[t] as int]]));
        } else if k < t {
            assert(!preferred(offers[places[order[t] as int]], offers[places[order[k] as int]]));
        }
    }
}

/// What a position has earned, and whether its profit may be taken, go by what it
/// gained: of two positions of which nothing but the gains differ, the one that
/// gained more earns at least as much, and may be left where the other one may.
pub proof fn lemma_profit_grows_with_the_gains(
    a: PositionRecommendation,
    b: PositionRecommendation,
    p: Position,
    q: Position,
)
    requires
        advises(a, p),
        advises(b, q),
        q == (Position { unrealized_pnl: q.unrealized_pnl, funding_earned: q.funding_earned, ..p }),
        p.unrealized_pnl.le_spec(q.unrealized_pnl),
        p.funding_earned.le_spec(q.funding_earned),
        !b.net_profit_usdt.nan(),
    ensures
        a.net_profit_usdt.nan() || a.net_profit_usdt.le_spec(b.net_profit_usdt),
        a.take_profit_allowed ==> b.take_profit_allowed,
        a.action@ == "take_profit_allowed"@ ==> b.action@ == "take_profit_allowed"@,
{
    reveal_strlit("take_profit_allowed");
    reveal_strlit("hold");
    assert("hold"@.len() != "take_profit_allowed"@.len());
    if !a.net_profit_usdt.nan() {
        let fees = estimated_fees(p);
        lemma_sum_monotone(p.funding_earned, q.funding_earned, p.unrealized_pnl, q.unrealized_pnl);
        lemma_sub_monotone(
            p.funding_earned.add_spec(p.unrealized_pnl),
            q.funding_earned.add_spec(q.unrealized_pnl),
            fees,
            fees,
        );
    }
}

/// Whether a quantity or a price is a number that is not negative.
pub open spec fn is_amount(x: Double) -> bool {
    x.finite() && !x.negative()
}

/// Whether quantities and prices of both legs are such numbers.
pub open spec fn has_amounts(position: Position) -> bool {
    &&& is_amount(position.long.quantity)
    &&& is_amount(position.long.entry_price)
    &&& is_amount(position.long.mark_price)
    &&& is_amount(position.short.quantity)
    &&& is_amount(position.short.entry_price)
    &&& is_amount(position.short.mark_price)
}

proof fn lemma_amounts_multiply(a: Double, b: Double)
    requires
        !a.nan(),
        !a.negative(),
        is_amount(b),
    ensures
        a.mul_spec(b).nan() || !a.mul_spec(b).negative(),
{
}

proof fn lemma_amounts_add(a: Double, b: Double)
    requires
        a.nan() || !a.negative(),
        b.nan() || !b.negative(),
    ensures
        a.add_spec(b).nan() || !a.add_spec(b).negative(),
{
    if a.finite() && b.finite() {
        let k = a.value() + b.value();
        if a.magnitude() > 0 {
            lemma_units_increase(0, a.magnitude());
        }
        if b.magnitude() > 0 {
            lemma_units_increase(0, b.magnitude());
        }
        assert(k >= 0);
    }
}

proof fn lemma_fees_are_paid(position: Position)
    requires
        has_amounts(position),
    ensures
        estimated_fees(position).nan() || !estimated_fees(position).negative(),
        combined_notional(position).nan() || !combined_notional(position).negative(),
{
    let long_fee = fee_of(position.long.exchange@);
    let short_fee = fee_of(position.short.exchange@);
    let a = position.long.quantity.mul_spec(position.long.entry_price).mul_spec(long_fee);
    let b = position.short.quantity.mul_spec(position.short.entry_price).mul_spec(short_fee);
    let c = position.long.quantity.mul_spec(position.long.mark_price).mul_spec(long_fee);
    let d = position.short.quantity.mul_spec(position.short.mark_price).mul_spec(short_fee);
    lemma_amounts_multiply(position.long.quantity, position.long.entry_price);
    lemma_amounts_multiply(position.short.quantity, position.short.entry_price);
    lemma_amounts_multiply(position.long.quantity, position.long.mark_price);
    lemma_amounts_multiply(position.short.quantity, position.short.mark_price);
    lemma_amounts_add(a, b);
    lemma_amounts_add(c, d);
    lemma_amounts_add(a.add_spec(b), c.add_spec(d));
    lemma_amounts_add(
        position.long.quantity.mul_spec(position.long.mark_price),
        position.short.quantity.mul_spec(position.short.mark_price),
    );
}

/// A position that has gained nothing in all is never advised to be left for a
/// profit, and what it is said to have earned is no more than it has gained.
pub proof fn lemma_no_profit_is_taken_at_a_loss(r: PositionRecommendation, position: Position)
    requires
        advises(r, position),
        has_amounts(position),
        position.funding_earned.finite(),
        position.unrealized_pnl.finite(),
        position.funding_earned.value() + position.unrealized_pnl.value() <= 0,
    ensures
        !r.take_profit_allowed,
        r.action@ == "hold"@,
        r.net_profit_usdt.nan() || r.net_profit_usdt.le_spec(Double { bits: ZERO }),
{
    let zero = Double { bits: ZERO };
    let gained = position.funding_earned.add_spec(position.unrealized_pnl);
    let fees = estimated_fees(position);
    lemma_fees_are_paid(position);
    assert(gained.le_spec(zero)) by {
        let k = position.funding_earned.value() + position.unrealized_pnl.value();
        if k < 0 {
            assert(gained.negative());
        }
    }
    if !r.net_profit_usdt.nan() {
        assert(zero.sub_spec(zero) == zero) by {
            lemma_sub_self(zero);
        }
        lemma_sub_monotone(gained, zero, fees, zero);
    }
    let notional = combined_notional(position);
    let threshold = r.take_profit_threshold_usdt;
    if zero.lt_spec(notional) && !threshold.nan() {
        lemma_product_sign(notional, Double { bits: TAKE_PROFIT_RATIO });
    }
}

/// The fees of a position, as a fraction over `one * one`: on each leg the rate of
/// its exchange on what it was entered for and on what it is left for.
pub open spec fn exact_fees(position: Position) -> int {
    let long = position.long;
    let short = position.short;
    let binance = (Double { bits: BINANCE_FEE }).value();
    let bybit = (Double { bits: BYBIT_FEE }).value();
    (if lower(long.exchange@) == lower("Binance"@) {
        binance
    } else {
        bybit
    }) * (long.quantity.value() * (long.entry_price.value() + long.mark_price.value())) + (if lower(
        short.exchange@,
    ) == lower("Binance"@) {
        binance
    } else {
        bybit
    }) * (short.quantity.value() * (short.entry_price.value() + short.mark_price.value()))
}

/// Whether quantities and prices of both legs are of an ordinary size: zero, or
/// between `2^-200` and `2^200`.
pub open spec fn has_ordinary_amounts(position: Position) -> bool {
    &&& sized(position.long.quantity, 200)
    &&& sized(position.long.entry_price, 200)
    &&& sized(position.long.mark_price, 200)
    &&& sized(position.short.quantity, 200)
    &&& sized(position.short.entry_price, 200)
    &&& sized(position.short.mark_price, 200)
}

proof fn lemma_fee_is_sized(exchange: Seq<char>)
    ensures
        sized(fee_of(exchange), 11),
{
    lemma_units_at(BINANCE_FEE as nat, 1011, (BINANCE_FEE - 1011 * BINADE) as nat);
    lemma_units_at(BYBIT_FEE as nat, 1011, (BYBIT_FEE - 1011 * BINADE) as nat);
    lemma2_to64_rest();
    lemma_pow2_adds(52, 1011);
    lemma_pow2_adds(53, 1011);
    lemma_pow2_strictly_increases(1064, 1085);
    let f = (BINANCE_FEE - 1011 * BINADE) as nat;
    let g = (BYBIT_FEE - 1011 * BINADE) as nat;
    let e = pow2(1011);
    lemma_pow2_pos(1011);
    assert(BINADE * e <= f * e <= (2 * BINADE) * e && BINADE * e <= g * e <= (2 * BINADE) * e) by (nonlinear_arith)
        requires
            BINADE <= f <= 2 * BINADE,
            BINADE <= g <= 2 * BINADE,
    ;
}

/// One part of the fees.
proof fn lemma_fee_part(quantity: Double, price: Double, fee: Double)
    requires
        sized(quantity, 200),
        sized(price, 200),
        sized(fee, 11),
    ensures
        about(
            quantity.mul_spec(price).mul_spec(fee),
            quantity.value() * price.value() * fee.value(),
            one() * one(),
            4,
        ),
        sized(quantity.mul_spec(price).mul_spec(fee), 411),
{
    lemma_about_itself(quantity);
    lemma_about_itself(price);
    lemma_about_itself(fee);
    lemma_pow2_pos(ONE_EXPONENT as nat);
    let u = one();
    lemma_about_product(quantity, price, quantity.value(), 1, price.value(), 1, 0, 0, 200, 200);
    assert(1 * 1 * u == u);
    lemma_about_product(
        quantity.mul_spec(price),
        fee,
        quantity.value() * price.value(),
        u,
        fee.value(),
        1,
        2,
        0,
        400,
        11,
    );
    assert(u * 1 * u == u * u) by (nonlinear_arith);
}

/// The fees of a position are the rates of the exchanges on what each leg was
/// entered for and on what it is left for, up to rounding.
pub proof fn lemma_fees_are_for_both_ways(r: PositionRecommendation, position: Position)
    requires
        advises(r, position),
        has_ordinary_amounts(position),
    ensures
        about(r.estimated_fees_usdt, exact_fees(position), one() * one(), 22),
{
    let l = position.long;
    let s = position.short;
    let lf = fee_of(l.exchange@);
    let sf = fee_of(s.exchange@);
    let d = one() * one();
    lemma_fee_is_sized(l.exchange@);
    lemma_fee_is_sized(s.exchange@);
    lemma_fee_part(l.quantity, l.entry_price, lf);
    lemma_fee_part(s.quantity, s.entry_price, sf);
    lemma_fee_part(l.quantity, l.mark_price, lf);
    lemma_fee_part(s.quantity, s.mark_price, sf);
    let a = l.quantity.value() * l.entry_price.value() * lf.value();
    let b = s.quantity.value() * s.entry_price.value() * sf.value();
    let c = l.quantity.value() * l.mark_price.value() * lf.value();
    let e = s.quantity.value() * s.mark_price.value() * sf.value();
    lemma_about_same_sum(
        l.quantity.mul_spec(l.entry_price).mul_spec(lf),
        s.quantity.mul_spec(s.entry_price).mul_spec(sf),
        a,
        b,
        d,
        4,
        4,
        411,
    );
    lemma_about_same_sum(
        l.quantity.mul_spec(l.mark_price).mul_spec(lf),
        s.quantity.mul_spec(s.mark_price).mul_spec(sf),
        c,
        e,
        d,
        4,
        4,
        411,
    );
    lemma_about_same_sum(
        l.quantity.mul_spec(l.entry_price).mul_spec(lf).add_spec(s.quantity.mul_spec(s.entry_price).mul_spec(sf)),
        l.quantity.mul_spec(l.mark_price).mul_spec(lf).add_spec(s.quantity.mul_spec(s.mark_price).mul_spec(sf)),
        a + b,
        c + e,
        d,
        10,
        10,
        412,
    );
    assert(a + c == lf.value() * (l.quantity.value() * (l.entry_price.value() + l.mark_price.value())))
        by (nonlinear_arith)
        requires
            a == l.quantity.value() * l.entry_price.value() * lf.value(),
            c == l.quantity.value() * l.mark_price.value() * lf.value(),
    ;
    assert(b + e == sf.value() * (s.quantity.value() * (s.entry_price.value() + s.mark_price.value())))
        by (nonlinear_arith)
        requires
            b == s.quantity.value() * s.entry_price.value() * sf.value(),
            e == s.quantity.value() * s.mark_price.value() * sf.value(),
    ;
}

/// A profit is taken only where it exceeds a hundredth of what both legs are worth
/// at their marks: what has been gained less the fees, up to rounding.
pub proof fn lemma_profit_is_what_is_gained_less_the_fees(r: PositionRecommendation, position: Position)
    requires
        advises(r, position),
        position.funding_earned.finite(),
        position.unrealized_pnl.finite(),
        r.estimated_fees_usdt.finite(),
        r.net_profit_usdt.finite(),
    ensures
        ({
            let exact = position.funding_earned.value() + position.unrealized_pnl.value()
                - r.estimated_fees_usdt.value();
            fine() * size(r.net_profit_usdt.value() - exact) <= 4 * (size(position.funding_earned.value()) + size(
                position.unrealized_pnl.value(),
            ) + size(r.estimated_fees_usdt.value()))
        }),
        r.take_profit_allowed ==> r.take_profit_threshold_usdt.lt_spec(r.net_profit_usdt) && positive(
            r.combined_notional_usdt,
        ),
        r.take_profit_allowed == (r.action@ == "take_profit_allowed"@),
{
    reveal_strlit("take_profit_allowed");
    reveal_strlit("hold");
    assert("hold"@.len() != "take_profit_allowed"@.len());
    let gained = position.funding_earned.add_spec(position.unrealized_pnl);
    let fees = r.estimated_fees_usdt;
    lemma_neg_turns(fees);
    assert(gained.finite());
    lemma_sum_is_near(position.funding_earned, position.unrealized_pnl);
    lemma_difference_is_near(gained, fees);
}

/// Both legs are worth their quantities at their marks, up to rounding, and the
/// profit that may be taken begins at a hundredth of that.
pub proof fn lemma_threshold_is_a_hundredth(r: PositionRecommendation, position: Position)
    requires
        advises(r, position),
        has_ordinary_amounts(position),
    ensures
        about(
            r.combined_notional_usdt,
            position.long.quantity.value() * position.long.mark_price.value() + position.short.quantity.value()
                * position.short.mark_price.value(),
            one(),
            6,
        ),
        about(
            r.take_profit_threshold_usdt,
            (position.long.quantity.value() * position.long.mark_price.value() + position.short.quantity.value()
                * position.short.mark_price.value()) * (Double { bits: HUNDREDTH }).value(),
            one() * one(),
            8,
        ),
{
    let l = position.long;
    let s = position.short;
    let u = one();
    lemma_pow2_pos(ONE_EXPONENT as nat);
    lemma_about_itself(l.quantity);
    lemma_about_itself(l.mark_price);
    lemma_about_itself(s.quantity);
    lemma_about_itself(s.mark_price);
    let a = l.quantity.value() * l.mark_price.value();
    let b = s.quantity.value() * s.mark_price.value();
    lemma_about_product(l.quantity, l.mark_price, l.quantity.value(), 1, l.mark_price.value(), 1, 0, 0, 200, 200);
    lemma_about_product(s.quantity, s.mark_price, s.quantity.value(), 1, s.mark_price.value(), 1, 0, 0, 200, 200);
    assert(1 * 1 * u == u);
    lemma_about_same_sum(l.quantity.mul_spec(l.mark_price), s.quantity.mul_spec(s.mark_price), a, b, u, 2, 2, 400);
    let h = Double { bits: HUNDREDTH };
    lemma_units_at(HUNDREDTH as nat, 1015, (HUNDREDTH - 1015 * BINADE) as nat);
    lemma2_to64_rest();
    lemma_pow2_adds(52, 1015);
    lemma_pow2_adds(53, 1015);
    lemma_pow2_strictly_increases(1068, 1081);
    let f = (HUNDREDTH - 1015 * BINADE) as nat;
    let e = pow2(1015);
    lemma_pow2_pos(1015);
    assert(BINADE * e <= f * e <= (2 * BINADE) * e) by (nonlinear_arith)
        requires
            BINADE <= f <= 2 * BINADE,
    ;
    assert(sized(h, 7));
    lemma_about_itself(h);
    lemma_about_product(r.combined_notional_usdt, h, a + b, u, h.value(), 1, 6, 0, 401, 7);
    assert(u * 1 * u == u * u) by (nonlinear_arith);
}

} // verus!
