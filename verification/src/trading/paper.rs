//! Simulated trades, and what the desk does before it sends real ones.

use crate::config::TradingMode;
use crate::failure::{Failure, Reason};
use crate::models::{AdjustPositionRequest, Leg, OpenTradeRequest, Opportunity, Position, PositionLeg, TradeResponse};
use crate::num::constants::{MILLION, TEN, TWO, ZERO};
use crate::num::double::of_int;
use crate::num::Double;
use crate::parsing::trimmed;
use crate::text::{digits, digits_text, join, same, upper};
use crate::trading::amounts::{average_price, floor_step, floored, update_position_roi, weighted_average, with_roi};
use crate::trading::live::{admit_open, guard_holds, plain, within};
use crate::trading::rules::{find_position, position_at};
use crate::trading::service::{added, TradingService};
use vstd::prelude::*;
use vstd::string::StringExecFns;

verus! {

/// What the desk makes of a request: it is done, or real orders have to be sent.
pub enum Answer {
    Done(TradeResponse),
    Live,
}

/// Whether a position is held over the route of an offer.
pub open spec fn is_on_route(position: Position, opportunity: Opportunity) -> bool {
    &&& position.token@ == opportunity.token.symbol@
    &&& position.long.exchange@ == opportunity.long.exchange@
    &&& position.long.market@ == opportunity.long.market@
    &&& position.short.exchange@ == opportunity.short.exchange@
    &&& position.short.market@ == opportunity.short.market@
}

/// The first position that is held over the route of an offer.
pub open spec fn on_route(positions: Seq<Position>, opportunity: Opportunity) -> Option<int>
    decreases positions.len(),
{
    if positions.len() == 0 {
        None
    } else if is_on_route(positions[0], opportunity) {
        Some(0)
    } else {
        match on_route(positions.drop_first(), opportunity) {
            Some(i) => Some(i + 1),
            None => None,
        }
    }
}

fn find_on_route(positions: &Vec<Position>, opportunity: &Opportunity) -> (r: Option<usize>)
    ensures
        match r {
            Some(i) => i < positions@.len() && on_route(positions@, *opportunity) == Some(i as int),
            None => on_route(positions@, *opportunity) is None,
        },
{
    let mut i: usize = 0;
    proof {
        assert(positions@.skip(0) =~= positions@);
    }
    while i < positions.len()
        invariant
            i <= positions@.len(),
            on_route(positions@, *opportunity) == match on_route(positions@.skip(i as int), *opportunity) {
                Some(j) => Some(j + i),
                None => None,
            },
        decreases positions@.len() - i,
    {
        proof {
            assert(positions@.skip(i as int)[0] == positions@[i as int]);
            assert(positions@.skip(i as int).drop_first() =~= positions@.skip(i as int + 1));
        }
        let p = &positions[i];
        if same(p.token.as_str(), opportunity.token.symbol.as_str()) && same(
            p.long.exchange.as_str(),
            opportunity.long.exchange.as_str(),
        ) && same(p.long.market.as_str(), opportunity.long.market.as_str()) && same(
            p.short.exchange.as_str(),
            opportunity.short.exchange.as_str(),
        ) && same(p.short.market.as_str(), opportunity.short.market.as_str()) {
            return Some(i);
        }
        i = i + 1;
    }
    None
}

/// How much of the long leg a trade buys.
pub open spec fn bought(opportunity: Opportunity, request: OpenTradeRequest) -> Double {
    floored(request.notional_usdt.div_spec(opportunity.long.ask), opportunity.long.qty_step)
}

/// How much of the short leg a trade sells.
pub open spec fn sold(opportunity: Opportunity, request: OpenTradeRequest) -> Double {
    floored(request.notional_usdt.div_spec(opportunity.short.bid), opportunity.short.qty_step)
}

/// A leg after more of it was traded at a price.
pub open spec fn enlarged(leg: PositionLeg, price: Double, quantity: Double) -> PositionLeg {
    PositionLeg {
        entry_price: average_price(leg.entry_price, leg.quantity, price, quantity),
        quantity: leg.quantity.add_spec(quantity),
        ..leg
    }
}

/// A position after a trade on the same route.
pub open spec fn increased(position: Position, opportunity: Opportunity, request: OpenTradeRequest) -> Position {
    Position {
        long: enlarged(position.long, opportunity.long.ask, bought(opportunity, request)),
        short: enlarged(position.short, opportunity.short.bid, sold(opportunity, request)),
        notional_usdt: position.notional_usdt.add_spec(request.notional_usdt),
        ..position
    }
}

/// A simulated leg.
pub open spec fn is_paper_leg(
    leg: PositionLeg,
    market: Leg,
    side: Seq<char>,
    quantity: Double,
    price: Double,
    leverage: u8,
) -> bool {
    &&& leg.exchange == market.exchange
    &&& leg.market == market.market
    &&& leg.symbol == market.symbol
    &&& leg.side@ == side
    &&& leg.quantity == quantity
    &&& leg.entry_price == price
    &&& leg.mark_price == market.mark
    &&& leg.unrealized_pnl == (Double { bits: ZERO })
    &&& leg.funding_earned == (Double { bits: ZERO })
    &&& leg.funding_rate == market.rate
    &&& leg.leverage == leverage
}

/// A simulated position.
pub open spec fn is_paper_position(
    position: Position,
    opportunity: Opportunity,
    request: OpenTradeRequest,
    id: String,
    now: i64,
) -> bool {
    let zero = Double { bits: ZERO };
    &&& position.id == id
    &&& position.token == opportunity.token.symbol
    &&& position.status@ == "open"@
    &&& position.opened_at == now
    &&& position.notional_usdt == request.notional_usdt
    &&& position.leverage == request.leverage
    &&& is_paper_leg(
        position.long,
        opportunity.long,
        "long"@,
        bought(opportunity, request),
        opportunity.long.ask,
        request.leverage,
    )
    &&& is_paper_leg(
        position.short,
        opportunity.short,
        "short"@,
        sold(opportunity, request),
        opportunity.short.bid,
        request.leverage,
    )
    &&& position.funding_earned == zero
    &&& position.unrealized_pnl == zero
    &&& position.current_pnl_usdt == zero
    &&& position.current_roi == zero
    &&& position.roi_basis_usdt == request.notional_usdt.mul_spec(Double { bits: TWO }).div_spec(
        of_int(request.leverage as int),
    )
    &&& position.current_funding_per_hour is None
    &&& position.current_spread is None
    &&& position.current_apy is None
}

/// The answer to a simulated trade.
pub open spec fn is_paper_answer(response: TradeResponse, position: Position, message: Seq<char>) -> bool {
    &&& response.position == position
    &&& response.mode@ == "paper"@
    &&& response.message@ == message
    &&& response.execution is None
}

fn paper_answer(position: Position, message: &str) -> (response: TradeResponse)
    ensures
        is_paper_answer(response, position, message@),
{
    TradeResponse { position, mode: "paper".to_owned(), message: message.to_owned(), execution: None }
}

fn paper_leg(market: &Leg, side: &str, quantity: Double, price: Double, leverage: u8) -> (leg: PositionLeg)
    ensures
        is_paper_leg(leg, *market, side@, quantity, price, leverage),
{
    PositionLeg {
        exchange: market.exchange.clone(),
        market: market.market.clone(),
        symbol: market.symbol.clone(),
        side: side.to_owned(),
        quantity,
        entry_price: price,
        mark_price: market.mark,
        unrealized_pnl: Double { bits: ZERO },
        funding_earned: Double { bits: ZERO },
        funding_rate: market.rate,
        leverage,
    }
}

/// The positions with one put in: in the place of the one with its identifier,
/// or at the end.
pub open spec fn seated(positions: Seq<Position>, position: Position) -> Seq<Position> {
    match position_at(positions, position.id@) {
        Some(i) => positions.update(i, position),
        None => positions.push(position),
    }
}

/// A simulated trade: a position on the same route grows, otherwise a new one
/// is opened.
pub open spec fn opened_on_paper(
    response: TradeResponse,
    new: Seq<Position>,
    old: Seq<Position>,
    opportunity: Opportunity,
    request: OpenTradeRequest,
    id: String,
    now: i64,
) -> bool {
    match on_route(old, opportunity) {
        Some(i) => {
            &&& is_paper_answer(response, increased(old[i], opportunity, request), "模拟双腿已加仓"@)
            &&& new == old.update(i, increased(old[i], opportunity, request))
        },
        None => {
            &&& is_paper_position(response.position, opportunity, request, id, now)
            &&& is_paper_answer(
                response,
                response.position,
                "模拟双腿仓位已建立，未发送真实订单"@,
            )
            &&& new == seated(old, response.position)
        },
    }
}

/// A position after a part of it was taken off.
pub open spec fn scaled_down(position: Position, amount: Double) -> Position {
    let remaining = position.notional_usdt.sub_spec(amount);
    let ratio = remaining.div_spec(position.notional_usdt);
    Position {
        long: PositionLeg { quantity: position.long.quantity.mul_spec(ratio), ..position.long },
        short: PositionLeg { quantity: position.short.quantity.mul_spec(ratio), ..position.short },
        notional_usdt: remaining,
        ..position
    }
}

/// A position with another leverage on both legs.
pub open spec fn releveraged(position: Position, leverage: u8) -> Position {
    Position {
        leverage,
        long: PositionLeg { leverage, ..position.long },
        short: PositionLeg { leverage, ..position.short },
        ..position
    }
}

/// Sets another leverage on both legs.
pub fn relever(position: &mut Position, leverage: u8)
    ensures
        *final(position) == releveraged(*old(position), leverage),
{
    position.leverage = leverage;
    position.long.leverage = leverage;
    position.short.leverage = leverage;
}

/// The answer once both exchanges have been asked for another leverage.
pub fn live_leverage_answer(position: Position, leverage: u8, set: Result<(), Failure>) -> (r: Result<
    TradeResponse,
    Failure,
>)
    ensures
        match set {
            Err(f) => r matches Err(e) && e.wraps(Reason::LeverageAdjust, f),
            Ok(_) => {
                &&& r matches Ok(response)
                &&& response.position == releveraged(position, leverage)
                &&& response.mode@ == "live"@
                &&& response.message@ == "两家交易所杠杆已调整为 "@ + digits(leverage as nat) + "×"@
                &&& response.execution is None
            },
        },
{
    if let Err(f) = set {
        return Err(Failure::in_step(Reason::LeverageAdjust, f));
    }
    let mut adjusted = position;
    relever(&mut adjusted, leverage);
    let mut message = join("两家交易所杠杆已调整为 ", digits_text(leverage as u128).as_str());
    message.append("×");
    Ok(TradeResponse { position: adjusted, mode: "live".to_owned(), message, execution: None })
}

/// What the market says about a held route.
#[derive(Clone, Copy, Debug)]
pub struct MarketMetrics {
    pub funding_per_hour: Double,
    pub spread: Double,
    pub apy: Double,
}

/// A position with its return and what the market says about its route.
pub open spec fn measured(position: Position, metrics: Option<MarketMetrics>) -> Position {
    Position {
        current_funding_per_hour: match metrics {
            Some(m) => Some(m.funding_per_hour),
            None => None,
        },
        current_spread: match metrics {
            Some(m) => Some(m.spread),
            None => None,
        },
        current_apy: match metrics {
            Some(m) => Some(m.apy),
            None => None,
        },
        ..with_roi(position)
    }
}

/// Brings a position up to date. Where the market says nothing about its route,
/// nothing is claimed about it.
pub fn measure(position: &mut Position, metrics: Option<MarketMetrics>)
    ensures
        *final(position) == measured(*old(position), metrics),
{
    update_position_roi(position);
    match metrics {
        Some(m) => {
            position.current_funding_per_hour = Some(m.funding_per_hour);
            position.current_spread = Some(m.spread);
            position.current_apy = Some(m.apy);
        },
        None => {
            position.current_funding_per_hour = None;
            position.current_spread = None;
            position.current_apy = None;
        },
    }
}

impl TradingService {
    /// Whether nothing but the simulated positions differs.
    pub open spec fn only_positions(self, old: TradingService) -> bool {
        self == (TradingService { paper_positions: self.paper_positions, ..old })
    }

    /// Carries out a simulated trade.
    pub fn open_paper(
        &mut self,
        opportunity: &Opportunity,
        request: &OpenTradeRequest,
        id: String,
        now: i64,
    ) -> (response: TradeResponse)
        ensures
            final(self).only_positions(*old(self)),
            opened_on_paper(
                response,
                final(self).paper_positions@,
                old(self).paper_positions@,
                *opportunity,
                *request,
                id,
                now,
            ),
    {
        let quantity_long = floor_step(
            request.notional_usdt.div(opportunity.long.ask),
            opportunity.long.qty_step,
        );
        let quantity_short = floor_step(
            request.notional_usdt.div(opportunity.short.bid),
            opportunity.short.qty_step,
        );
        if let Some(i) = find_on_route(&self.paper_positions, opportunity) {
            let mut position = self.paper_positions[i].clone();
            position.long.entry_price = weighted_average(
                position.long.entry_price,
                position.long.quantity,
                opportunity.long.ask,
                quantity_long,
            );
            position.short.entry_price = weighted_average(
                position.short.entry_price,
                position.short.quantity,
                opportunity.short.bid,
                quantity_short,
            );
            position.long.quantity = position.long.quantity.add(quantity_long);
            position.short.quantity = position.short.quantity.add(quantity_short);
            position.notional_usdt = position.notional_usdt.add(request.notional_usdt);
            self.paper_positions.set(i, position.clone());
            return paper_answer(position, "模拟双腿已加仓");
        }
        let zero = Double { bits: ZERO };
        let position = Position {
            id,
            token: opportunity.token.symbol.clone(),
            status: "open".to_owned(),
            opened_at: now,
            notional_usdt: request.notional_usdt,
            leverage: request.leverage,
            long: paper_leg(
                &opportunity.long,
                "long",
                quantity_long,
                opportunity.long.ask,
                request.leverage,
            ),
            short: paper_leg(
                &opportunity.short,
                "short",
                quantity_short,
                opportunity.short.bid,
                request.leverage,
            ),
            funding_earned: zero,
            unrealized_pnl: zero,
            current_pnl_usdt: zero,
            current_roi: zero,
            roi_basis_usdt: request.notional_usdt.mul(Double { bits: TWO }).div(
                Double::from_int(request.leverage as i64),
            ),
            current_funding_per_hour: None,
            current_spread: None,
            current_apy: None,
        };
        match find_position(&self.paper_positions, position.id.as_str()) {
            Some(i) => {
                self.paper_positions.set(i, position.clone());
            },
            None => {
                self.paper_positions.push(position.clone());
            },
        }
        paper_answer(position, "模拟双腿仓位已建立，未发送真实订单")
    }

    /// Opens a position on an offer. `agreed` is the spread that the offer was
    /// seen with, `current` the offer at the quotes to trade at.
    pub fn open(
        &mut self,
        request: &OpenTradeRequest,
        agreed: Double,
        current: &Opportunity,
        id: String,
        now: i64,
    ) -> (r: Result<Answer, Failure>)
        ensures
            *final(self) == (TradingService {
                paper_positions: final(self).paper_positions,
                managed_symbols: final(self).managed_symbols,
                ..*old(self)
            }),
            r is Err ==> *final(self) == *old(self),
            ({
                let threshold = match request.spread_threshold {
                    Some(threshold) => threshold,
                    None => agreed,
                };
                if !guard_holds(*request, agreed, current.spread) {
                    r == Err::<Answer, Failure>(
                        plain(Reason::SpreadWait { current: current.spread, threshold }),
                    )
                } else if !current.execution_supported {
                    r == Err::<Answer, Failure>(plain(Reason::ObservationOnly))
                } else if !within(request.notional_usdt, TEN, MILLION) {
                    r == Err::<Answer, Failure>(plain(Reason::NotionalRange))
                } else if !(1 <= request.leverage <= 20) {
                    r == Err::<Answer, Failure>(plain(Reason::LeverageRange))
                } else if old(self).live() {
                    r == Ok::<Answer, Failure>(Answer::Live) && *final(self) == *old(self)
                } else {
                    &&& r matches Ok(Answer::Done(response))
                    &&& opened_on_paper(
                        response,
                        final(self).paper_positions@,
                        old(self).paper_positions@,
                        *current,
                        *request,
                        id,
                        now,
                    )
                    &&& added(
                        final(self).managed_symbols@,
                        old(self).managed_symbols@,
                        upper(trimmed(current.long.symbol@)),
                    )
                }
            }),
    {
        if let Err(failure) = admit_open(request, agreed, current) {
            return Err(failure);
        }
        if self.config.trading_mode == TradingMode::Live {
            return Ok(Answer::Live);
        }
        let response = self.open_paper(current, request, id, now);
        self.remember_managed_symbol(current.long.symbol.as_str());
        Ok(Answer::Done(response))
    }

    /// Takes a part of a position off.
    pub fn reduce(&mut self, id: &str, request: &AdjustPositionRequest) -> (r: Result<Answer, Failure>)
        ensures
            final(self).only_positions(*old(self)),
            ({
                let amount = request.notional_usdt;
                let found = position_at(old(self).paper_positions@, id@);
                if amount.lt_spec(Double { bits: TEN }) {
                    r == Err::<Answer, Failure>(plain(Reason::NotionalMinimum)) && *final(self) == *old(self)
                } else if old(self).live() {
                    r == Ok::<Answer, Failure>(Answer::Live) && *final(self) == *old(self)
                } else if found is None {
                    r == Err::<Answer, Failure>(plain(Reason::PositionNotFound)) && *final(self) == *old(self)
                } else {
                    let position = old(self).paper_positions@[found->0];
                    if position.notional_usdt.le_spec(amount) {
                        r == Err::<Answer, Failure>(plain(Reason::ReductionTooLarge)) && *final(self)
                            == *old(self)
                    } else {
                        &&& r matches Ok(Answer::Done(response))
                        &&& is_paper_answer(response, scaled_down(position, amount), "模拟双腿已减仓"@)
                        &&& final(self).paper_positions@ == old(self).paper_positions@.update(
                            found->0,
                            scaled_down(position, amount),
                        )
                    }
                }
            }),
    {
        let amount = request.notional_usdt;
        if amount.lt(Double { bits: TEN }) {
            return Err(Failure::new(Reason::NotionalMinimum));
        }
        if self.config.trading_mode == TradingMode::Live {
            return Ok(Answer::Live);
        }
        let i = match find_position(&self.paper_positions, id) {
            Some(i) => i,
            None => return Err(Failure::new(Reason::PositionNotFound)),
        };
        let mut position = self.paper_positions[i].clone();
        if amount.ge(position.notional_usdt) {
            return Err(Failure::new(Reason::ReductionTooLarge));
        }
        let remaining = position.notional_usdt.sub(amount);
        let ratio = remaining.div(position.notional_usdt);
        position.long.quantity = position.long.quantity.mul(ratio);
        position.short.quantity = position.short.quantity.mul(ratio);
        position.notional_usdt = remaining;
        self.paper_positions.set(i, position.clone());
        Ok(Answer::Done(paper_answer(position, "模拟双腿已减仓")))
    }

    /// Closes a position.
    pub fn close(&mut self, id: &str) -> (r: Result<Answer, Failure>)
        ensures
            final(self).only_positions(*old(self)),
            ({
                let found = position_at(old(self).paper_positions@, id@);
                if old(self).live() {
                    r == Ok::<Answer, Failure>(Answer::Live) && *final(self) == *old(self)
                } else if found is None {
                    r == Err::<Answer, Failure>(plain(Reason::PositionNotFound)) && *final(self) == *old(self)
                } else {
                    let position = old(self).paper_positions@[found->0];
                    &&& r matches Ok(Answer::Done(response))
                    &&& response.position == (Position { status: response.position.status, ..position })
                    &&& response.position.status@ == "closed"@
                    &&& is_paper_answer(response, response.position, "模拟仓位已平仓"@)
                    &&& final(self).paper_positions@ == old(self).paper_positions@.remove(found->0)
                }
            }),
    {
        if self.config.trading_mode == TradingMode::Live {
            return Ok(Answer::Live);
        }
        let i = match find_position(&self.paper_positions, id) {
            Some(i) => i,
            None => return Err(Failure::new(Reason::PositionNotFound)),
        };
        let mut position = self.paper_positions.remove(i);
        position.status = "closed".to_owned();
        Ok(Answer::Done(paper_answer(position, "模拟仓位已平仓")))
    }

    /// Sets another leverage on both legs of a position.
    pub fn adjust_leverage(&mut self, id: &str, leverage: u8) -> (r: Result<Answer, Failure>)
        ensures
            final(self).only_positions(*old(self)),
            ({
                let found = position_at(old(self).paper_positions@, id@);
                if !(1 <= leverage <= 20) {
                    r == Err::<Answer, Failure>(plain(Reason::LeverageRange)) && *final(self) == *old(self)
                } else if old(self).live() {
                    r == Ok::<Answer, Failure>(Answer::Live) && *final(self) == *old(self)
                } else if found is None {
                    r == Err::<Answer, Failure>(plain(Reason::PositionNotFound)) && *final(self) == *old(self)
                } else {
                    let adjusted = releveraged(old(self).paper_positions@[found->0], leverage);
                    &&& r matches Ok(Answer::Done(response))
                    &&& is_paper_answer(
                        response,
                        adjusted,
                        "模拟双腿杠杆已调整为 "@ + digits(leverage as nat) + "×"@,
                    )
                    &&& final(self).paper_positions@ == old(self).paper_positions@.update(found->0, adjusted)
                }
            }),
    {
        if !(1 <= leverage && leverage <= 20) {
            return Err(Failure::new(Reason::LeverageRange));
        }
        if self.config.trading_mode == TradingMode::Live {
            return Ok(Answer::Live);
        }
        let i = match find_position(&self.paper_positions, id) {
            Some(i) => i,
            None => return Err(Failure::new(Reason::PositionNotFound)),
        };
        let mut position = self.paper_positions[i].clone();
        relever(&mut position, leverage);
        self.paper_positions.set(i, position.clone());
        let mut message = join("模拟双腿杠杆已调整为 ", digits_text(leverage as u128).as_str());
        message.append("×");
        Ok(Answer::Done(paper_answer(position, message.as_str())))
    }

    /// The positions that are held, with what the market says about their
    /// routes: the simulated ones, or those that were found on the exchanges.
    pub fn positions(&self, live: Vec<Position>, metrics: &Vec<Option<MarketMetrics>>) -> (positions: Vec<Position>)
        ensures
            ({
                let held = if self.live() {
                    live@
                } else {
                    self.paper_positions@
                };
                &&& positions@.len() == held.len()
                &&& forall|i: int|
                    0 <= i < held.len() ==> #[trigger] positions@[i] == measured(
                        held[i],
                        if i < metrics@.len() {
                            metrics@[i]
                        } else {
                            None
                        },
                    )
            }),
    {
        let held = self.held(live);
        let mut positions: Vec<Position> = Vec::new();
        let mut i: usize = 0;
        while i < held.len()
            invariant
                i <= held@.len(),
                positions@.len() == i,
                forall|k: int|
                    0 <= k < i ==> #[trigger] positions@[k] == measured(
                        held@[k],
                        if k < metrics@.len() {
                            metrics@[k]
                        } else {
                            None
                        },
                    ),
            decreases held@.len() - i,
        {
            let mut position = held[i].clone();
            let known = if i < metrics.len() {
                metrics[i]
            } else {
                None
            };
            measure(&mut position, known);
            positions.push(position);
            i = i + 1;
        }
        positions
    }

    /// The positions whose routes the market has to be asked about.
    pub fn held(&self, live: Vec<Position>) -> (positions: Vec<Position>)
        ensures
            positions@ == (if self.live() {
                live@
            } else {
                self.paper_positions@
            }),
    {
        if self.config.trading_mode == TradingMode::Live {
            return live;
        }
        let mut positions: Vec<Position> = Vec::new();
        let mut i: usize = 0;
        while i < self.paper_positions.len()
            invariant
                i <= self.paper_positions@.len(),
                positions@ == self.paper_positions@.take(i as int),
            decreases self.paper_positions@.len() - i,
        {
            positions.push(self.paper_positions[i].clone());
            proof {
                assert(self.paper_positions@.take(i as int + 1) =~= self.paper_positions@.take(i as int).push(
                    self.paper_positions@[i as int],
                ));
            }
            i = i + 1;
        }
        proof {
            assert(self.paper_positions@.take(self.paper_positions@.len() as int) =~= self.paper_positions@);
        }
        positions
    }
}

} // verus!
