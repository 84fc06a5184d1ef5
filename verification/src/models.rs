//! The data that the desk works on.

use crate::num::Double;
use vstd::prelude::*;

verus! {

/// A copy of an optional text.
pub fn copy_text(text: &Option<String>) -> (r: Option<String>)
    ensures
        r == *text,
{
    match text {
        Some(s) => Some(s.clone()),
        None => None,
    }
}

/// A copy of a list of texts.
pub fn copy_texts(list: &Vec<String>) -> (r: Vec<String>)
    ensures
        r@ == list@,
{
    let mut r: Vec<String> = Vec::new();
    let mut i: usize = 0;
    while i < list.len()
        invariant
            i <= list@.len(),
            r@ == list@.take(i as int),
        decreases list@.len() - i,
    {
        proof {
            assert(list@.take(i as int + 1) =~= list@.take(i as int).push(list@[i as int]));
        }
        r.push(list[i].clone());
        i = i + 1;
    }
    proof {
        assert(list@.take(list@.len() as int) =~= list@);
    }
    r
}

/// A tradable asset.
#[derive(Debug)]
pub struct Token {
    pub symbol: String,
    pub name: String,
    pub rank: Option<u32>,
    pub tags: Vec<String>,
}

impl Token {
    /// Whether this is a copy of the other value.
    pub open spec fn copies(self, other: Token) -> bool {
        &&& self == (Token { tags: self.tags, ..other })
        &&& self.tags@ == other.tags@
    }
}

impl Clone for Token {
    fn clone(&self) -> (r: Self)
        ensures
            r.copies(*self),
    {
        Token {
            symbol: self.symbol.clone(),
            name: self.name.clone(),
            rank: self.rank,
            tags: copy_texts(&self.tags),
        }
    }
}

/// One side of a route: a market on an exchange, with its quotes and its funding.
#[derive(Debug)]
pub struct Leg {
    pub exchange: String,
    pub market: String,
    pub base: String,
    pub symbol: String,
    pub bid: Double,
    pub ask: Double,
    pub bid_quantity: Double,
    pub ask_quantity: Double,
    pub mark: Double,
    pub rate: Double,
    pub interval_hours: Double,
    pub next_funding_time: i64,
    pub qty_step: Double,
    pub tags: Vec<String>,
    pub volume_24h_usdt: Double,
}

impl Leg {
    /// Whether this is a copy of the other value.
    pub open spec fn copies(self, other: Leg) -> bool {
        &&& self == (Leg { tags: self.tags, ..other })
        &&& self.tags@ == other.tags@
    }
}

impl Clone for Leg {
    fn clone(&self) -> (r: Self)
        ensures
            r.copies(*self),
    {
        Leg {
            exchange: self.exchange.clone(),
            market: self.market.clone(),
            base: self.base.clone(),
            symbol: self.symbol.clone(),
            bid: self.bid,
            ask: self.ask,
            bid_quantity: self.bid_quantity,
            ask_quantity: self.ask_quantity,
            mark: self.mark,
            rate: self.rate,
            interval_hours: self.interval_hours,
            next_funding_time: self.next_funding_time,
            qty_step: self.qty_step,
            tags: copy_texts(&self.tags),
            volume_24h_usdt: self.volume_24h_usdt,
        }
    }
}

/// A pair of legs that earns funding or a price gap.
#[derive(Debug)]
pub struct Opportunity {
    pub id: String,
    pub token: Token,
    pub long: Leg,
    pub short: Leg,
    pub funding_per_hour: Double,
    pub borrow_interest_per_hour: Double,
    pub apy: Double,
    pub apy_horizon_hours: u8,
    pub spread: Double,
    pub average_spread_24h: Double,
    pub spread_vs_average: Double,
    pub fees: Double,
    pub break_even_hours: Double,
    pub route_type: String,
    pub execution_supported: bool,
}

impl Opportunity {
    /// Whether this is a copy of the other value.
    pub open spec fn copies(self, other: Opportunity) -> bool {
        &&& self == (Opportunity { token: self.token, long: self.long, short: self.short, ..other })
        &&& self.token.copies(other.token)
        &&& self.long.copies(other.long)
        &&& self.short.copies(other.short)
    }
}

impl Clone for Opportunity {
    fn clone(&self) -> (r: Self)
        ensures
            r.copies(*self),
    {
        Opportunity {
            id: self.id.clone(),
            token: self.token.clone(),
            long: self.long.clone(),
            short: self.short.clone(),
            funding_per_hour: self.funding_per_hour,
            borrow_interest_per_hour: self.borrow_interest_per_hour,
            apy: self.apy,
            apy_horizon_hours: self.apy_horizon_hours,
            spread: self.spread,
            average_spread_24h: self.average_spread_24h,
            spread_vs_average: self.spread_vs_average,
            fees: self.fees,
            break_even_hours: self.break_even_hours,
            route_type: self.route_type.clone(),
            execution_supported: self.execution_supported,
        }
    }
}

/// The taker fees that break-even times are reckoned with.
#[derive(Clone, Copy, Debug)]
pub struct FeeAssumptions {
    pub binance_taker_fee: Double,
    pub bybit_taker_fee: Double,
}

/// One scan of the markets.
#[derive(Debug)]
pub struct OpportunitiesResponse {
    pub opportunities: Vec<Opportunity>,
    pub spot_opportunities: Vec<Opportunity>,
    pub spread_opportunities: Vec<Opportunity>,
    pub updated_at: i64,
    pub universe_size: usize,
    pub matched_pairs: usize,
    pub assumptions: FeeAssumptions,
}

/// One side of a position as the exchange reports it.
#[derive(Debug)]
pub struct PositionLeg {
    pub exchange: String,
    pub market: String,
    pub symbol: String,
    pub side: String,
    pub quantity: Double,
    pub entry_price: Double,
    pub mark_price: Double,
    pub unrealized_pnl: Double,
    pub funding_earned: Double,
    pub funding_rate: Double,
    pub leverage: u8,
}

impl Clone for PositionLeg {
    fn clone(&self) -> (r: Self)
        ensures
            r == *self,
    {
        PositionLeg {
            exchange: self.exchange.clone(),
            market: self.market.clone(),
            symbol: self.symbol.clone(),
            side: self.side.clone(),
            quantity: self.quantity,
            entry_price: self.entry_price,
            mark_price: self.mark_price,
            unrealized_pnl: self.unrealized_pnl,
            funding_earned: self.funding_earned,
            funding_rate: self.funding_rate,
            leverage: self.leverage,
        }
    }
}

/// The prices of a perpetual contract.
#[derive(Debug)]
pub struct PositionQuote {
    pub exchange: String,
    pub symbol: String,
    pub mark_price: Double,
    pub last_price: Double,
    pub reference_price: Double,
    pub uses_last_price: bool,
    pub bid_price: Double,
    pub ask_price: Double,
    pub funding_rate: Double,
}

impl Clone for PositionQuote {
    fn clone(&self) -> (r: Self)
        ensures
            r == *self,
    {
        PositionQuote {
            exchange: self.exchange.clone(),
            symbol: self.symbol.clone(),
            mark_price: self.mark_price,
            last_price: self.last_price,
            reference_price: self.reference_price,
            uses_last_price: self.uses_last_price,
            bid_price: self.bid_price,
            ask_price: self.ask_price,
            funding_rate: self.funding_rate,
        }
    }
}

/// A hedged pair of legs.
#[derive(Debug)]
pub struct Position {
    pub id: String,
    pub token: String,
    pub status: String,
    pub opened_at: i64,
    pub notional_usdt: Double,
    pub leverage: u8,
    pub long: PositionLeg,
    pub short: PositionLeg,
    pub funding_earned: Double,
    pub unrealized_pnl: Double,
    pub current_pnl_usdt: Double,
    pub current_roi: Double,
    pub roi_basis_usdt: Double,
    pub current_funding_per_hour: Option<Double>,
    pub current_spread: Option<Double>,
    pub current_apy: Option<Double>,
}

impl Clone for Position {
    fn clone(&self) -> (r: Self)
        ensures
            r == *self,
    {
        Position {
            id: self.id.clone(),
            token: self.token.clone(),
            status: self.status.clone(),
            opened_at: self.opened_at,
            notional_usdt: self.notional_usdt,
            leverage: self.leverage,
            long: self.long.clone(),
            short: self.short.clone(),
            funding_earned: self.funding_earned,
            unrealized_pnl: self.unrealized_pnl,
            current_pnl_usdt: self.current_pnl_usdt,
            current_roi: self.current_roi,
            roi_basis_usdt: self.roi_basis_usdt,
            current_funding_per_hour: self.current_funding_per_hour,
            current_spread: self.current_spread,
            current_apy: self.current_apy,
        }
    }
}

/// A request to open or to increase a position.
#[derive(Debug)]
pub struct OpenTradeRequest {
    pub opportunity_id: String,
    pub notional_usdt: Double,
    pub leverage: u8,
    pub spread_guard: bool,
    pub spread_threshold: Option<Double>,
}

impl Clone for OpenTradeRequest {
    fn clone(&self) -> (r: Self)
        ensures
            r == *self,
    {
        OpenTradeRequest {
            opportunity_id: self.opportunity_id.clone(),
            notional_usdt: self.notional_usdt,
            leverage: self.leverage,
            spread_guard: self.spread_guard,
            spread_threshold: self.spread_threshold,
        }
    }
}

/// A request to increase a position batch by batch.
#[derive(Debug)]
pub struct BatchIncreaseRequest {
    pub opportunity_id: String,
    pub target_notional_usdt: Double,
    pub order_notional_usdt: Double,
    pub interval_seconds: Double,
    pub leverage: u8,
    pub spread_guard: bool,
    pub spread_threshold: Option<Double>,
}

impl Clone for BatchIncreaseRequest {
    fn clone(&self) -> (r: Self)
        ensures
            r == *self,
    {
        BatchIncreaseRequest {
            opportunity_id: self.opportunity_id.clone(),
            target_notional_usdt: self.target_notional_usdt,
            order_notional_usdt: self.order_notional_usdt,
            interval_seconds: self.interval_seconds,
            leverage: self.leverage,
            spread_guard: self.spread_guard,
            spread_threshold: self.spread_threshold,
        }
    }
}

/// A request to reduce a position batch by batch.
#[derive(Debug)]
pub struct BatchReduceRequest {
    pub position_id: String,
    pub target_notional_usdt: Double,
    pub close_all: bool,
    pub order_notional_usdt: Double,
    pub interval_seconds: Double,
    pub no_loss_guard: bool,
    pub close_spread_threshold: Option<Double>,
    pub minimum_roi: Option<Double>,
}

impl Clone for BatchReduceRequest {
    fn clone(&self) -> (r: Self)
        ensures
            r == *self,
    {
        BatchReduceRequest {
            position_id: self.position_id.clone(),
            target_notional_usdt: self.target_notional_usdt,
            close_all: self.close_all,
            order_notional_usdt: self.order_notional_usdt,
            interval_seconds: self.interval_seconds,
            no_loss_guard: self.no_loss_guard,
            close_spread_threshold: self.close_spread_threshold,
            minimum_roi: self.minimum_roi,
        }
    }
}

/// One line of the log of a batch task.
#[derive(Debug)]
pub struct BatchExecutionLog {
    pub sequence: usize,
    pub batch: usize,
    pub timestamp: i64,
    pub exchange: String,
    pub side: String,
    pub token: String,
    pub notional_usdt: Double,
    pub executed_quantity: Double,
    pub average_price: Double,
    pub status: String,
    pub order_id: String,
    pub message: String,
}

impl Clone for BatchExecutionLog {
    fn clone(&self) -> (r: Self)
        ensures
            r == *self,
    {
        BatchExecutionLog {
            sequence: self.sequence,
            batch: self.batch,
            timestamp: self.timestamp,
            exchange: self.exchange.clone(),
            side: self.side.clone(),
            token: self.token.clone(),
            notional_usdt: self.notional_usdt,
            executed_quantity: self.executed_quantity,
            average_price: self.average_price,
            status: self.status.clone(),
            order_id: self.order_id.clone(),
            message: self.message.clone(),
        }
    }
}

/// A batch task, as it is shown while it runs.
#[derive(Debug)]
pub struct BatchIncreaseTask {
    pub id: String,
    pub action: String,
    pub status: String,
    pub token: String,
    pub long_exchange: String,
    pub short_exchange: String,
    pub target_notional_usdt: Double,
    pub order_notional_usdt: Double,
    pub interval_seconds: Double,
    pub leverage: Option<u8>,
    pub spread_guard: bool,
    pub spread_threshold: Option<Double>,
    pub current_spread: Option<Double>,
    pub effective_spread_threshold: Option<Double>,
    pub cumulative_filled_spread: Option<Double>,
    pub spread_wait_count: u64,
    pub no_loss_guard: bool,
    pub current_close_pnl_usdt: Option<Double>,
    pub completed_notional_usdt: Double,
    pub completed_batches: usize,
    pub total_batches: usize,
    pub started_at: i64,
    pub updated_at: i64,
    pub cancel_requested: bool,
    pub error: Option<String>,
    pub current_position: Option<Position>,
    pub logs: Vec<BatchExecutionLog>,
}

impl BatchIncreaseTask {
    /// Whether this is a copy of the other value.
    pub open spec fn copies(self, other: BatchIncreaseTask) -> bool {
        &&& self == (BatchIncreaseTask { logs: self.logs, ..other })
        &&& self.logs@ == other.logs@
    }
}

impl Clone for BatchIncreaseTask {
    fn clone(&self) -> (r: Self)
        ensures
            r.copies(*self),
    {
        BatchIncreaseTask {
            id: self.id.clone(),
            action: self.action.clone(),
            status: self.status.clone(),
            token: self.token.clone(),
            long_exchange: self.long_exchange.clone(),
            short_exchange: self.short_exchange.clone(),
            target_notional_usdt: self.target_notional_usdt,
            order_notional_usdt: self.order_notional_usdt,
            interval_seconds: self.interval_seconds,
            leverage: self.leverage,
            spread_guard: self.spread_guard,
            spread_threshold: self.spread_threshold,
            current_spread: self.current_spread,
            effective_spread_threshold: self.effective_spread_threshold,
            cumulative_filled_spread: self.cumulative_filled_spread,
            spread_wait_count: self.spread_wait_count,
            no_loss_guard: self.no_loss_guard,
            current_close_pnl_usdt: self.current_close_pnl_usdt,
            completed_notional_usdt: self.completed_notional_usdt,
            completed_batches: self.completed_batches,
            total_batches: self.total_batches,
            started_at: self.started_at,
            updated_at: self.updated_at,
            cancel_requested: self.cancel_requested,
            error: copy_text(&self.error),
            current_position: (match &self.current_position {
                Some(x) => Some(x.clone()),
                None => None,
            }),
            logs: copy_batch_execution_logs(&self.logs),
        }
    }
}

/// A rule that closes a position once its yield stays low.
#[derive(Debug)]
pub struct AutoCloseRule {
    pub id: String,
    pub position_id: String,
    pub token: String,
    pub threshold_apy_percent: Double,
    pub order_notional_usdt: Double,
    pub interval_seconds: Double,
    pub status: String,
    pub current_apy_percent: Option<Double>,
    pub consecutive_low_readings: u32,
    pub completed_notional_usdt: Double,
    pub created_at: i64,
    pub updated_at: i64,
    pub triggered_at: Option<i64>,
    pub error: Option<String>,
}

impl Clone for AutoCloseRule {
    fn clone(&self) -> (r: Self)
        ensures
            r == *self,
    {
        AutoCloseRule {
            id: self.id.clone(),
            position_id: self.position_id.clone(),
            token: self.token.clone(),
            threshold_apy_percent: self.threshold_apy_percent,
            order_notional_usdt: self.order_notional_usdt,
            interval_seconds: self.interval_seconds,
            status: self.status.clone(),
            current_apy_percent: self.current_apy_percent,
            consecutive_low_readings: self.consecutive_low_readings,
            completed_notional_usdt: self.completed_notional_usdt,
            created_at: self.created_at,
            updated_at: self.updated_at,
            triggered_at: self.triggered_at,
            error: copy_text(&self.error),
        }
    }
}

/// A request for an automatic close.
#[derive(Clone, Copy, Debug)]
pub struct SetAutoCloseRequest {
    pub threshold_apy_percent: Double,
    pub order_notional_usdt: Double,
    pub interval_seconds: Double,
}

/// A request to reduce a position.
#[derive(Clone, Copy, Debug)]
pub struct AdjustPositionRequest {
    pub notional_usdt: Double,
}

/// A request to change the leverage of a position.
#[derive(Clone, Copy, Debug)]
pub struct AdjustLeverageRequest {
    pub leverage: u8,
}

/// What an exchange has confirmed of an order.
#[derive(Debug)]
pub struct OrderExecution {
    pub exchange: String,
    pub client_order_id: String,
    pub order_id: String,
    pub status: String,
    pub executed_quantity: Double,
    pub average_price: Double,
}

impl Clone for OrderExecution {
    fn clone(&self) -> (r: Self)
        ensures
            r == *self,
    {
        OrderExecution {
            exchange: self.exchange.clone(),
            client_order_id: self.client_order_id.clone(),
            order_id: self.order_id.clone(),
            status: self.status.clone(),
            executed_quantity: self.executed_quantity,
            average_price: self.average_price,
        }
    }
}

/// How a live trade was carried out.
#[derive(Debug)]
pub struct ExecutionReport {
    pub outcome: String,
    pub naked_exposure: bool,
    pub max_slippage_bps: u32,
    pub target_notional_usdt: Double,
    pub long_notional_usdt: Double,
    pub short_notional_usdt: Double,
    pub tolerance_usdt: Double,
    pub balanced: bool,
    pub phase_one_long_attempts: u8,
    pub phase_one_short_attempts: u8,
    pub phase_one_long_anomalies: u8,
    pub phase_one_short_anomalies: u8,
    pub phase_two_attempts: u8,
    pub phase_two_anomalies: u8,
    pub alert: bool,
    pub orders: Vec<OrderExecution>,
    pub supplement_orders: Vec<OrderExecution>,
    pub rebalance_orders: Vec<OrderExecution>,
    pub compensation_orders: Vec<OrderExecution>,
}

impl ExecutionReport {
    /// Whether this is a copy of the other value.
    pub open spec fn copies(self, other: ExecutionReport) -> bool {
        &&& self == (ExecutionReport { orders: self.orders, supplement_orders: self.supplement_orders, rebalance_orders: self.rebalance_orders, compensation_orders: self.compensation_orders, ..other })
        &&& self.orders@ == other.orders@
        &&& self.supplement_orders@ == other.supplement_orders@
        &&& self.rebalance_orders@ == other.rebalance_orders@
        &&& self.compensation_orders@ == other.compensation_orders@
    }
}

impl Clone for ExecutionReport {
    fn clone(&self) -> (r: Self)
        ensures
            r.copies(*self),
    {
        ExecutionReport {
            outcome: self.outcome.clone(),
            naked_exposure: self.naked_exposure,
            max_slippage_bps: self.max_slippage_bps,
            target_notional_usdt: self.target_notional_usdt,
            long_notional_usdt: self.long_notional_usdt,
            short_notional_usdt: self.short_notional_usdt,
            tolerance_usdt: self.tolerance_usdt,
            balanced: self.balanced,
            phase_one_long_attempts: self.phase_one_long_attempts,
            phase_one_short_attempts: self.phase_one_short_attempts,
            phase_one_long_anomalies: self.phase_one_long_anomalies,
            phase_one_short_anomalies: self.phase_one_short_anomalies,
            phase_two_attempts: self.phase_two_attempts,
            phase_two_anomalies: self.phase_two_anomalies,
            alert: self.alert,
            orders: copy_order_executions(&self.orders),
            supplement_orders: copy_order_executions(&self.supplement_orders),
            rebalance_orders: copy_order_executions(&self.rebalance_orders),
            compensation_orders: copy_order_executions(&self.compensation_orders),
        }
    }
}

/// The answer to a trade request.
#[derive(Debug)]
pub struct TradeResponse {
    pub position: Position,
    pub mode: String,
    pub message: String,
    pub execution: Option<ExecutionReport>,
}

impl TradeResponse {
    /// Whether this is a copy of the other value.
    pub open spec fn copies(self, other: TradeResponse) -> bool {
        &&& self == (TradeResponse { execution: self.execution, ..other })
        &&& self.execution is Some == other.execution is Some
        &&& self.execution is Some ==> self.execution->0.copies(other.execution->0)
    }
}

impl Clone for TradeResponse {
    fn clone(&self) -> (r: Self)
        ensures
            r.copies(*self),
    {
        TradeResponse {
            position: self.position.clone(),
            mode: self.mode.clone(),
            message: self.message.clone(),
            execution: (match &self.execution {
                Some(x) => Some(x.clone()),
                None => None,
            }),
        }
    }
}

/// The account at one exchange.
#[derive(Debug)]
pub struct ExchangeBalance {
    pub exchange: String,
    pub equity_usdt: Double,
    pub available_usdt: Double,
    pub unrealized_pnl: Double,
    pub realized_pnl: Double,
    pub closed_position_pnl: Double,
    pub funding_income: Double,
    pub trading_fees: Double,
}

impl Clone for ExchangeBalance {
    fn clone(&self) -> (r: Self)
        ensures
            r == *self,
    {
        ExchangeBalance {
            exchange: self.exchange.clone(),
            equity_usdt: self.equity_usdt,
            available_usdt: self.available_usdt,
            unrealized_pnl: self.unrealized_pnl,
            realized_pnl: self.realized_pnl,
            closed_position_pnl: self.closed_position_pnl,
            funding_income: self.funding_income,
            trading_fees: self.trading_fees,
        }
    }
}

/// Both accounts at a glance.
#[derive(Debug)]
pub struct AccountSummary {
    pub mode: String,
    pub configured_exchanges: Vec<String>,
    pub exchanges: Vec<ExchangeBalance>,
    pub equity_usdt: Double,
    pub available_usdt: Double,
    pub unrealized_pnl: Double,
    pub realized_pnl: Double,
    pub closed_position_pnl: Double,
    pub funding_income: Double,
    pub trading_fees: Double,
    pub realized_period_days: u8,
    pub active_positions: usize,
    pub unhedged_legs: Vec<PositionLeg>,
}

/// One run of the orphan-leg protection.
#[derive(Debug)]
pub struct HedgeProtectionEvent {
    pub id: String,
    pub token: String,
    pub event_type: String,
    pub status: String,
    pub message: String,
    pub started_at: i64,
    pub updated_at: i64,
    pub initial_long_notional_usdt: Option<Double>,
    pub initial_short_notional_usdt: Option<Double>,
    pub final_long_notional_usdt: Option<Double>,
    pub final_short_notional_usdt: Option<Double>,
    pub orders: Vec<OrderExecution>,
}

impl HedgeProtectionEvent {
    /// Whether this is a copy of the other value.
    pub open spec fn copies(self, other: HedgeProtectionEvent) -> bool {
        &&& self == (HedgeProtectionEvent { orders: self.orders, ..other })
        &&& self.orders@ == other.orders@
    }
}

impl Clone for HedgeProtectionEvent {
    fn clone(&self) -> (r: Self)
        ensures
            r.copies(*self),
    {
        HedgeProtectionEvent {
            id: self.id.clone(),
            token: self.token.clone(),
            event_type: self.event_type.clone(),
            status: self.status.clone(),
            message: self.message.clone(),
            started_at: self.started_at,
            updated_at: self.updated_at,
            initial_long_notional_usdt: self.initial_long_notional_usdt,
            initial_short_notional_usdt: self.initial_short_notional_usdt,
            final_long_notional_usdt: self.final_long_notional_usdt,
            final_short_notional_usdt: self.final_short_notional_usdt,
            orders: copy_order_executions(&self.orders),
        }
    }
}

/// The state of the orphan-leg protection.
#[derive(Debug)]
pub struct HedgeProtectionStatus {
    pub enabled: bool,
    pub tolerance_percent: Double,
    pub minimum_difference_usdt: Double,
    pub order_notional_usdt: Double,
    pub interval_seconds: Double,
    pub protected_tokens: Vec<String>,
    pub events: Vec<HedgeProtectionEvent>,
}

/// One hour of the price gap between the two exchanges.
#[derive(Clone, Copy, Debug)]
pub struct SpreadHistoryPoint {
    pub timestamp: i64,
    pub binance_close: Double,
    pub bybit_close: Double,
    pub spread_percent: Double,
    pub binance_funding_rate: Option<Double>,
    pub bybit_funding_rate: Option<Double>,
}

/// The price gap of a perpetual over the last day.
#[derive(Debug)]
pub struct SpreadHistoryResponse {
    pub symbol: String,
    pub formula: String,
    pub funding_note: String,
    pub points: Vec<SpreadHistoryPoint>,
}

/// One hour of the price gap between two legs.
#[derive(Clone, Copy, Debug)]
pub struct OpportunityHistoryPoint {
    pub timestamp: i64,
    pub long_close: Double,
    pub short_close: Double,
    pub directional_spread_percent: Double,
    pub long_funding_rate: Option<Double>,
    pub short_funding_rate: Option<Double>,
}

/// The price gap of a route over the last day.
#[derive(Debug)]
pub struct OpportunityHistoryResponse {
    pub opportunity_id: String,
    pub funding_note: String,
    pub points: Vec<OpportunityHistoryPoint>,
}

/// A listed asset.
#[derive(Debug)]
pub struct CmcToken {
    pub symbol: String,
    pub name: String,
    pub cmc_rank: u32,
}

/// The list of the largest assets.
#[derive(Debug)]
pub struct CmcResponse {
    pub data: Vec<CmcToken>,
}

/// A copy of a list.
pub fn copy_batch_execution_logs(list: &Vec<BatchExecutionLog>) -> (r: Vec<BatchExecutionLog>)
    ensures
        r@ == list@,
{
    let mut r: Vec<BatchExecutionLog> = Vec::new();
    let mut i: usize = 0;
    while i < list.len()
        invariant
            i <= list@.len(),
            r@ == list@.take(i as int),
        decreases list@.len() - i,
    {
        proof {
            assert(list@.take(i as int + 1) =~= list@.take(i as int).push(list@[i as int]));
        }
        r.push(list[i].clone());
        i = i + 1;
    }
    proof {
        assert(list@.take(list@.len() as int) =~= list@);
    }
    r
}

/// A copy of a list.
pub fn copy_order_executions(list: &Vec<OrderExecution>) -> (r: Vec<OrderExecution>)
    ensures
        r@ == list@,
{
    let mut r: Vec<OrderExecution> = Vec::new();
    let mut i: usize = 0;
    while i < list.len()
        invariant
            i <= list@.len(),
            r@ == list@.take(i as int),
        decreases list@.len() - i,
    {
        proof {
            assert(list@.take(i as int + 1) =~= list@.take(i as int).push(list@[i as int]));
        }
        r.push(list[i].clone());
        i = i + 1;
    }
    proof {
        assert(list@.take(list@.len() as int) =~= list@);
    }
    r
}

/// The leverage of a request that names none.
pub fn default_leverage() -> (leverage: u8)
    ensures
        leverage == 1,
{
    1
}

} // verus!
