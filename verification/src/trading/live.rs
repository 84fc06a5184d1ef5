//! Opening, reducing and closing a position on the exchanges.

use crate::failure::{Failure, Reason};
use crate::models::{ExecutionReport, Leg, OpenTradeRequest, Opportunity, OrderExecution, Position, PositionLeg, TradeResponse};
use crate::num::constants::{EPSILON, HUNDRED, MARGIN_RESERVE, MILLION, ONE, TEN, TWO, ZERO};
use crate::num::double::of_int;
use crate::num::Double;
use crate::text::{join, same};
use crate::trading::amounts::{
    balanced, ceil_step, floor_step, floored, hedge_notional_imbalance_ratio, imbalance, margin_basis,
    mismatched, notional, notional_mismatch_exceeds_values, notional_or_zero, open_allowed,
    optional_notional, paired_positions_are_balanced, position_margin_basis, position_notional, raised,
    reduced_notional, reduced_notional_at_reference, spread_guard_allows, update_position_roi, with_roi,
    POSITION_RECONCILIATION_TOLERANCE_RATIO,
};
use crate::trading::guard::MAX_RECONCILIATION_ATTEMPTS;
use crate::trading::plan::{
    find_metadata, limit_order, market_order, metadata_of, plans, plans_on, reducing_order, OrderPlan,
};
use crate::trading::quantities::lemma_worth_of_a_request;
use crate::trading::sizing::{reckons, worth_up_to_a_step};
use crate::trading::books::{adds, lemma_adds};
use vstd::prelude::*;

verus! {

/// Whether a number lies between two others, both included.
pub open spec fn within(x: Double, low: u64, high: u64) -> bool {
    (Double { bits: low }).le_spec(x) && x.le_spec(Double { bits: high })
}

pub fn is_within(x: Double, low: u64, high: u64) -> (b: bool)
    ensures
        b == within(x, low, high),
{
    (Double { bits: low }).le(x) && x.le(Double { bits: high })
}

/// A failure without anything behind it.
pub open spec fn plain(reason: Reason) -> Failure {
    Failure { reason, cause: None }
}

/// Whether a guarded request finds its spread.
pub open spec fn guard_holds(request: OpenTradeRequest, agreed: Double, current: Double) -> bool {
    !request.spread_guard || open_allowed(
        current,
        match request.spread_threshold {
            Some(threshold) => threshold,
            None => agreed,
        },
    )
}

/// Admits a request to open: the spread of the refreshed quotes is good enough
/// where it is guarded, the route can be traded, and the size and the leverage
/// lie within their bounds. `agreed` is the spread that the route was offered
/// with, `current` the one of the quotes to trade at.
pub fn admit_open(request: &OpenTradeRequest, agreed: Double, current: &Opportunity) -> (r: Result<(), Failure>)
    ensures
        ({
            let threshold = match request.spread_threshold {
                Some(threshold) => threshold,
                None => agreed,
            };
            if !guard_holds(*request, agreed, current.spread) {
                r == Err::<(), Failure>(
                    plain(Reason::SpreadWait { current: current.spread, threshold }),
                )
            } else if !current.execution_supported {
                r == Err::<(), Failure>(plain(Reason::ObservationOnly))
            } else if !within(request.notional_usdt, TEN, MILLION) {
                r == Err::<(), Failure>(plain(Reason::NotionalRange))
            } else if !(1 <= request.leverage <= 20) {
                r == Err::<(), Failure>(plain(Reason::LeverageRange))
            } else {
                r is Ok
            }
        }),
{
    let threshold = match request.spread_threshold {
        Some(threshold) => threshold,
        None => agreed,
    };
    if request.spread_guard && !spread_guard_allows(current.spread, threshold) {
        return Err(Failure::new(Reason::SpreadWait { current: current.spread, threshold }));
    }
    if !current.execution_supported {
        return Err(Failure::new(Reason::ObservationOnly));
    }
    if !is_within(request.notional_usdt, TEN, MILLION) {
        return Err(Failure::new(Reason::NotionalRange));
    }
    if !(1 <= request.leverage && request.leverage <= 20) {
        return Err(Failure::new(Reason::LeverageRange));
    }
    Ok(())
}

/// The free balance that a trade calls for on either exchange: its margin and a
/// reserve of five percent.
pub open spec fn required_margin(request: OpenTradeRequest) -> Double {
    request.notional_usdt.div_spec(of_int(request.leverage as int)).mul_spec(
        Double { bits: MARGIN_RESERVE },
    )
}

/// The free balance on an exchange.
pub open spec fn available(exchange: Seq<char>, binance: Double, bybit: Double) -> Option<Double> {
    if exchange == "Binance"@ {
        Some(binance)
    } else if exchange == "Bybit"@ {
        Some(bybit)
    } else {
        None
    }
}

/// Whether one exchange has the balance that a trade calls for.
pub open spec fn covers(r: Result<(), Failure>, exchange: Seq<char>, free: Option<Double>, required: Double) -> bool {
    match free {
        None => {
            &&& r matches Err(f)
            &&& f.cause is None
            &&& f.reason matches Reason::UnsupportedExchange { exchange: e }
            &&& e@ == exchange
        },
        Some(amount) => if amount.lt_spec(required) {
            &&& r matches Err(f)
            &&& f.cause is None
            &&& f.reason matches Reason::InsufficientBalance { exchange: e, available: a, required: q }
            &&& e@ == exchange
            &&& a == amount
            &&& q == required
        } else {
            r is Ok
        },
    }
}

fn check_cover(exchange: &str, binance: Double, bybit: Double, required: Double) -> (r: Result<(), Failure>)
    ensures
        covers(r, exchange@, available(exchange@, binance, bybit), required),
{
    let amount = if same(exchange, "Binance") {
        binance
    } else if same(exchange, "Bybit") {
        bybit
    } else {
        return Err(Failure::new(Reason::UnsupportedExchange { exchange: exchange.to_owned() }));
    };
    if amount.lt(required) {
        return Err(
            Failure::new(
                Reason::InsufficientBalance { exchange: exchange.to_owned(), available: amount, required },
            ),
        );
    }
    Ok(())
}

/// Whether free balances let a trade go on: first the one where the long leg
/// goes, then the one where the short leg goes.
pub open spec fn balance_verdict(
    r: Result<(), Failure>,
    opportunity: Opportunity,
    request: OpenTradeRequest,
    balances: Result<(Double, Double), Failure>,
) -> bool {
    match balances {
        Err(f) => r matches Err(e) && e.wraps(Reason::BalancePreflight, f),
        Ok((binance, bybit)) => {
            let required = required_margin(request);
            let long = available(opportunity.long.exchange@, binance, bybit);
            let short = available(opportunity.short.exchange@, binance, bybit);
            if long is None || long->0.lt_spec(required) {
                r is Err && covers(r, opportunity.long.exchange@, long, required)
            } else {
                covers(r, opportunity.short.exchange@, short, required)
            }
        },
    }
}

/// Checks the free balances at Binance and Bybit before any order is sent: first
/// where the long leg goes, then where the short leg goes. Nothing is sent
/// either where the balances could not be had.
pub fn preflight_balance(
    opportunity: &Opportunity,
    request: &OpenTradeRequest,
    balances: Result<(Double, Double), Failure>,
) -> (r: Result<(), Failure>)
    ensures
        balance_verdict(r, *opportunity, *request, balances),
{
    let (binance_available, bybit_available) = match balances {
        Ok(free) => free,
        Err(f) => return Err(Failure::in_step(Reason::BalancePreflight, f)),
    };
    let required = request.notional_usdt.div(Double::from_int(request.leverage as i64)).mul(
        Double { bits: MARGIN_RESERVE },
    );
    let long = check_cover(opportunity.long.exchange.as_str(), binance_available, bybit_available, required);
    if long.is_err() {
        return long;
    }
    check_cover(opportunity.short.exchange.as_str(), binance_available, bybit_available, required)
}

/// Whether the short leg is borrowed on Binance.
pub open spec fn borrows(opportunity: Opportunity) -> bool {
    opportunity.short.exchange@ == "Binance"@ && opportunity.short.market@ == "spot"@
}

pub fn needs_borrow(opportunity: &Opportunity) -> (b: bool)
    ensures
        b == borrows(*opportunity),
{
    same(opportunity.short.exchange.as_str(), "Binance") && same(opportunity.short.market.as_str(), "spot")
}

/// Whether what can be borrowed lets a trade go on.
pub open spec fn loan_verdict(
    r: Result<(), Failure>,
    opportunity: Opportunity,
    request: OpenTradeRequest,
    maximum: Result<Double, Failure>,
) -> bool {
    match maximum {
        Err(f) => r matches Err(e) && e.wraps(Reason::BorrowPreflight, f),
        Ok(most) => {
            let required = request.notional_usdt.div_spec(opportunity.short.bid);
            if most.add_spec(opportunity.short.qty_step).lt_spec(required) {
                &&& r matches Err(f)
                &&& f.cause is None
                &&& f.reason matches Reason::BorrowLimit { maximum: m, required: q, base }
                &&& m == most
                &&& q == required
                &&& base@ == opportunity.short.base@
            } else {
                r is Ok
            }
        },
    }
}

/// Checks what can be borrowed before any order is sent. Nothing is sent either
/// where that could not be found out.
pub fn preflight_borrow(
    opportunity: &Opportunity,
    request: &OpenTradeRequest,
    maximum: Result<Double, Failure>,
) -> (r: Result<(), Failure>)
    ensures
        loan_verdict(r, *opportunity, *request, maximum),
{
    let maximum = match maximum {
        Ok(most) => most,
        Err(f) => return Err(Failure::in_step(Reason::BorrowPreflight, f)),
    };
    let required = request.notional_usdt.div(opportunity.short.bid);
    if maximum.add(opportunity.short.qty_step).lt(required) {
        return Err(
            Failure::new(
                Reason::BorrowLimit { maximum, required, base: opportunity.short.base.clone() },
            ),
        );
    }
    Ok(())
}

/// Whether both legs have their leverage, so that orders may be sent.
pub fn check_leverage(set: Result<(), Failure>) -> (r: Result<(), Failure>)
    ensures
        match set {
            Ok(_) => r is Ok,
            Err(f) => r matches Err(e) && e.wraps(Reason::LeverageSetup, f),
        },
{
    match set {
        Ok(_) => Ok(()),
        Err(f) => Err(Failure::in_step(Reason::LeverageSetup, f)),
    }
}

/// A report of a trade that has not begun.
pub open spec fn is_fresh(
    report: ExecutionReport,
    outcome: Seq<char>,
    max_slippage_bps: u32,
    target: Double,
    long_notional: Double,
    short_notional: Double,
    tolerance: Double,
    is_balanced: bool,
) -> bool {
    &&& report.outcome@ == outcome
    &&& !report.naked_exposure
    &&& report.max_slippage_bps == max_slippage_bps
    &&& report.target_notional_usdt == target
    &&& report.long_notional_usdt == long_notional
    &&& report.short_notional_usdt == short_notional
    &&& report.tolerance_usdt == tolerance
    &&& report.balanced == is_balanced
    &&& report.phase_one_long_attempts == 0
    &&& report.phase_one_short_attempts == 0
    &&& report.phase_one_long_anomalies == 0
    &&& report.phase_one_short_anomalies == 0
    &&& report.phase_two_attempts == 0
    &&& report.phase_two_anomalies == 0
    &&& !report.alert
    &&& report.orders@ == Seq::<OrderExecution>::empty()
    &&& report.supplement_orders@ == Seq::<OrderExecution>::empty()
    &&& report.rebalance_orders@ == Seq::<OrderExecution>::empty()
    &&& report.compensation_orders@ == Seq::<OrderExecution>::empty()
}

fn fresh_report(
    outcome: &str,
    max_slippage_bps: u32,
    target: Double,
    long_notional: Double,
    short_notional: Double,
    tolerance: Double,
    is_balanced: bool,
) -> (report: ExecutionReport)
    ensures
        is_fresh(
            report,
            outcome@,
            max_slippage_bps,
            target,
            long_notional,
            short_notional,
            tolerance,
            is_balanced,
        ),
{
    ExecutionReport {
        outcome: outcome.to_owned(),
        naked_exposure: false,
        max_slippage_bps,
        target_notional_usdt: target,
        long_notional_usdt: long_notional,
        short_notional_usdt: short_notional,
        tolerance_usdt: tolerance,
        balanced: is_balanced,
        phase_one_long_attempts: 0,
        phase_one_short_attempts: 0,
        phase_one_long_anomalies: 0,
        phase_one_short_anomalies: 0,
        phase_two_attempts: 0,
        phase_two_anomalies: 0,
        alert: false,
        orders: Vec::new(),
        supplement_orders: Vec::new(),
        rebalance_orders: Vec::new(),
        compensation_orders: Vec::new(),
    }
}

/// Where an opening stands: what has to be found out or done next.
#[derive(Clone, Copy, Debug, PartialEq, Eq, Structural)]
pub enum OpenStage {
    /// What is held of either leg.
    Existing,
    /// The free balances at Binance and Bybit.
    Balances,
    /// How much can be borrowed.
    Borrowable,
    /// Setting the leverage of both legs.
    Leverage,
    /// Sending both orders.
    Orders,
    /// Lifting either leg to its target.
    Lift,
    /// Cutting the larger leg down to the smaller one.
    Even,
}

impl OpenStage {
    /// The number of stages before this one.
    pub open spec fn rank(self) -> int {
        match self {
            OpenStage::Existing => 0,
            OpenStage::Balances => 1,
            OpenStage::Borrowable => 2,
            OpenStage::Leverage => 3,
            OpenStage::Orders => 4,
            OpenStage::Lift => 5,
            OpenStage::Even => 6,
        }
    }
}

/// What an opening asks for next.
#[derive(Debug)]
pub enum OpenAction {
    /// Find out what is held of either leg.
    FindLegs,
    /// Find out the free balances at Binance and Bybit.
    FindBalances,
    /// Find out how much of a base can be borrowed.
    FindBorrowable { base: String },
    /// Set the leverage of both legs.
    SetLeverage { leverage: u8 },
    /// Send both orders at once.
    Send { long: OrderPlan, short: OrderPlan },
    /// Read both legs: a guarded opening adds nothing at the market.
    ReadLegs,
    /// Lift either leg to its target at the market.
    LiftLegs { long_target: Double, short_target: Double },
    /// Cut the larger leg down to the smaller one.
    EvenOut,
}

/// Opening or increasing a position on the exchanges.
pub struct OpenRun {
    pub opportunity: Opportunity,
    pub request: OpenTradeRequest,
    pub stage: OpenStage,
    /// The free balances at Binance and Bybit that were found to be enough.
    pub free: Option<(Double, Double)>,
    /// What can be borrowed, found to be enough.
    pub borrowable: Option<Double>,
    pub long_qty: Double,
    pub short_qty: Double,
    pub current_long: Double,
    pub current_short: Double,
    pub is_increase: bool,
    pub report: ExecutionReport,
}

/// How far the legs of a finished opening are apart, in percent.
pub open spec fn mismatch_percent(long: Option<PositionLeg>, short: Option<PositionLeg>, mismatch: Double) -> Double {
    match (long, short) {
        (Some(l), Some(s)) => imbalance(notional(l), notional(s)).mul_spec(Double { bits: HUNDRED }),
        _ => if (Double { bits: EPSILON }).lt_spec(mismatch) {
            Double { bits: HUNDRED }
        } else {
            Double { bits: ZERO }
        },
    }
}

/// The difference between the legs of a finished trade.
pub open spec fn mismatch(long: Option<PositionLeg>, short: Option<PositionLeg>) -> Double {
    notional_or_zero(long).sub_spec(notional_or_zero(short)).abs_spec()
}

/// Whether the free balances cover the margin of a trade and its reserve on the
/// exchanges of both legs.
pub open spec fn margin_covered(opportunity: Opportunity, request: OpenTradeRequest, binance: Double, bybit: Double) -> bool {
    let required = required_margin(request);
    let long = available(opportunity.long.exchange@, binance, bybit);
    let short = available(opportunity.short.exchange@, binance, bybit);
    &&& long is Some && !long->0.lt_spec(required)
    &&& short is Some && !short->0.lt_spec(required)
}

/// Whether what the short leg sells can be borrowed, up to one step.
pub open spec fn loan_covered(opportunity: Opportunity, request: OpenTradeRequest, most: Double) -> bool {
    !most.add_spec(opportunity.short.qty_step).lt_spec(request.notional_usdt.div_spec(opportunity.short.bid))
}

impl OpenRun {
    /// An opening is past a check only where the check was passed.
    pub open spec fn wf(self) -> bool {
        &&& self.stage.rank() > OpenStage::Balances.rank() ==> (self.free matches Some(free) && margin_covered(
            self.opportunity,
            self.request,
            free.0,
            free.1,
        ))
        &&& self.stage.rank() > OpenStage::Borrowable.rank() && borrows(self.opportunity) ==> (self.borrowable matches Some(
            most,
        ) && loan_covered(self.opportunity, self.request, most))
    }

    /// The two orders of the opening: at the market, or at the quoted prices
    /// where the spread is guarded.
    pub open spec fn sends(self, long: OrderPlan, short: OrderPlan) -> bool {
        &&& plans(
            long,
            self.opportunity.long,
            "Buy"@,
            self.long_qty,
            false,
            if self.request.spread_guard {
                Some(self.opportunity.long.ask)
            } else {
                None
            },
        )
        &&& plans(
            short,
            self.opportunity.short,
            "Sell"@,
            self.short_qty,
            false,
            if self.request.spread_guard {
                Some(self.opportunity.short.bid)
            } else {
                None
            },
        )
    }

    /// What comes next.
    pub fn next(&self) -> (action: OpenAction)
        ensures
            match self.stage {
                OpenStage::Existing => action is FindLegs,
                OpenStage::Balances => action is FindBalances,
                OpenStage::Borrowable => action matches OpenAction::FindBorrowable { base } && base@
                    == self.opportunity.short.base@,
                OpenStage::Leverage => action == (OpenAction::SetLeverage { leverage: self.request.leverage }),
                OpenStage::Orders => action matches OpenAction::Send { long, short } && self.sends(long, short),
                OpenStage::Lift => if self.request.spread_guard {
                    action is ReadLegs
                } else {
                    action == (OpenAction::LiftLegs {
                        long_target: self.current_long.add_spec(self.request.notional_usdt),
                        short_target: self.current_short.add_spec(self.request.notional_usdt),
                    })
                },
                OpenStage::Even => action is EvenOut,
            },
            action matches OpenAction::LiftLegs { long_target, short_target } ==> {
                &&& adds(long_target, self.current_long, self.request.notional_usdt)
                &&& adds(short_target, self.current_short, self.request.notional_usdt)
            },
    {
        proof {
            lemma_adds(self.current_long, self.request.notional_usdt);
            lemma_adds(self.current_short, self.request.notional_usdt);
        }
        match self.stage {
            OpenStage::Existing => OpenAction::FindLegs,
            OpenStage::Balances => OpenAction::FindBalances,
            OpenStage::Borrowable => OpenAction::FindBorrowable { base: self.opportunity.short.base.clone() },
            OpenStage::Leverage => OpenAction::SetLeverage { leverage: self.request.leverage },
            OpenStage::Orders => {
                let (long, short) = self.orders();
                OpenAction::Send { long, short }
            },
            OpenStage::Lift => if self.request.spread_guard {
                OpenAction::ReadLegs
            } else {
                let (long_target, short_target) = self.targets();
                OpenAction::LiftLegs { long_target, short_target }
            },
            OpenStage::Even => OpenAction::EvenOut,
        }
    }

    /// Works out the orders of an opening.
    pub fn new(opportunity: Opportunity, request: OpenTradeRequest, tolerance: Double, max_slippage_bps: u32) -> (r:
        Result<OpenRun, Failure>)
        ensures
            ({
                let zero = Double { bits: ZERO };
                let long_qty = floored(
                    request.notional_usdt.div_spec(opportunity.long.ask),
                    opportunity.long.qty_step,
                );
                let short_qty = floored(
                    request.notional_usdt.div_spec(opportunity.short.bid),
                    opportunity.short.qty_step,
                );
                if long_qty.le_spec(zero) || short_qty.le_spec(zero) {
                    r matches Err(f) && f == plain(Reason::ZeroQuantity)
                } else {
                    &&& r matches Ok(run)
                    &&& run.wf()
                    &&& run.opportunity == opportunity
                    &&& run.request == request
                    &&& run.stage is Existing
                    &&& run.free is None
                    &&& run.borrowable is None
                    &&& run.long_qty == long_qty
                    &&& run.short_qty == short_qty
                    &&& run.current_long == zero
                    &&& run.current_short == zero
                    &&& !run.is_increase
                    &&& is_fresh(
                        run.report,
                        "executing"@,
                        max_slippage_bps,
                        request.notional_usdt,
                        zero,
                        zero,
                        tolerance,
                        false,
                    )
                }
            }),
            r matches Ok(run) ==> request.notional_usdt.finite() && !request.notional_usdt.negative() ==> {
                &&& reckons(opportunity.long.ask, opportunity.long.qty_step) && run.long_qty.finite()
                    ==> worth_up_to_a_step(
                    run.long_qty,
                    opportunity.long.ask,
                    request.notional_usdt.value(),
                    opportunity.long.qty_step,
                )
                &&& reckons(opportunity.short.bid, opportunity.short.qty_step) && run.short_qty.finite()
                    ==> worth_up_to_a_step(
                    run.short_qty,
                    opportunity.short.bid,
                    request.notional_usdt.value(),
                    opportunity.short.qty_step,
                )
            },
    {
        let zero = Double { bits: ZERO };
        proof {
            let amount = request.notional_usdt;
            if amount.finite() && !amount.negative() {
                if reckons(opportunity.long.ask, opportunity.long.qty_step) {
                    lemma_worth_of_a_request(amount, opportunity.long.ask, opportunity.long.qty_step);
                }
                if reckons(opportunity.short.bid, opportunity.short.qty_step) {
                    lemma_worth_of_a_request(amount, opportunity.short.bid, opportunity.short.qty_step);
                }
            }
        }
        let long_qty = floor_step(
            request.notional_usdt.div(opportunity.long.ask),
            opportunity.long.qty_step,
        );
        let short_qty = floor_step(
            request.notional_usdt.div(opportunity.short.bid),
            opportunity.short.qty_step,
        );
        if long_qty.le(zero) || short_qty.le(zero) {
            return Err(Failure::new(Reason::ZeroQuantity));
        }
        let report = fresh_report(
            "executing",
            max_slippage_bps,
            request.notional_usdt,
            zero,
            zero,
            tolerance,
            false,
        );
        Ok(
            OpenRun {
                opportunity,
                request,
                stage: OpenStage::Existing,
                free: None,
                borrowable: None,
                long_qty,
                short_qty,
                current_long: zero,
                current_short: zero,
                is_increase: false,
                report,
            },
        )
    }

    /// Takes in what is held already: nothing, or both legs. Nothing is sent where
    /// that could not be found out.
    pub fn on_existing(&mut self, legs: Result<(Option<PositionLeg>, Option<PositionLeg>), Failure>) -> (r:
        Result<(), Failure>)
        requires
            old(self).wf(),
            old(self).stage is Existing,
        ensures
            final(self).wf(),
            match legs {
                Err(f) => {
                    &&& *final(self) == *old(self)
                    &&& r matches Err(e)
                    &&& e.wraps(Reason::ExistingPositions, f)
                },
                Ok((None, None)) => r is Ok && *final(self) == (OpenRun {
                    stage: OpenStage::Balances,
                    current_long: Double { bits: ZERO },
                    current_short: Double { bits: ZERO },
                    is_increase: false,
                    ..*old(self)
                }),
                Ok((Some(l), Some(s))) => r is Ok && *final(self) == (OpenRun {
                    stage: OpenStage::Balances,
                    current_long: notional(l),
                    current_short: notional(s),
                    is_increase: true,
                    ..*old(self)
                }),
                Ok(_) => {
                    &&& *final(self) == *old(self)
                    &&& r matches Err(f)
                    &&& f.cause is None
                    &&& f.reason matches Reason::OneLeg { token }
                    &&& token@ == old(self).opportunity.token.symbol@
                },
            },
    {
        match legs {
            Err(f) => Err(Failure::in_step(Reason::ExistingPositions, f)),
            Ok((None, None)) => {
                self.stage = OpenStage::Balances;
                self.current_long = Double { bits: ZERO };
                self.current_short = Double { bits: ZERO };
                self.is_increase = false;
                Ok(())
            },
            Ok((Some(l), Some(s))) => {
                self.stage = OpenStage::Balances;
                self.current_long = position_notional(&l);
                self.current_short = position_notional(&s);
                self.is_increase = true;
                Ok(())
            },
            Ok(_) => Err(
                Failure::new(Reason::OneLeg { token: self.opportunity.token.symbol.clone() }),
            ),
        }
    }

    /// Takes in the free balances at Binance and Bybit.
    pub fn on_balances(&mut self, balances: Result<(Double, Double), Failure>) -> (r: Result<(), Failure>)
        requires
            old(self).wf(),
            old(self).stage is Balances,
        ensures
            final(self).wf(),
            balance_verdict(r, old(self).opportunity, old(self).request, balances),
            *final(self) == (if r is Ok {
                OpenRun {
                    stage: if borrows(old(self).opportunity) {
                        OpenStage::Borrowable
                    } else {
                        OpenStage::Leverage
                    },
                    free: Some(balances->Ok_0),
                    ..*old(self)
                }
            } else {
                *old(self)
            }),
    {
        let found: Option<(Double, Double)> = match &balances {
            Ok(free) => Some(*free),
            Err(_) => None,
        };
        let verdict = preflight_balance(&self.opportunity, &self.request, balances);
        if verdict.is_ok() {
            self.free = found;
            self.stage = if needs_borrow(&self.opportunity) {
                OpenStage::Borrowable
            } else {
                OpenStage::Leverage
            };
        }
        verdict
    }

    /// Takes in how much can be borrowed.
    pub fn on_borrowable(&mut self, maximum: Result<Double, Failure>) -> (r: Result<(), Failure>)
        requires
            old(self).wf(),
            old(self).stage is Borrowable,
        ensures
            final(self).wf(),
            loan_verdict(r, old(self).opportunity, old(self).request, maximum),
            *final(self) == (if r is Ok {
                OpenRun { stage: OpenStage::Leverage, borrowable: Some(maximum->Ok_0), ..*old(self) }
            } else {
                *old(self)
            }),
    {
        let found: Option<Double> = match &maximum {
            Ok(most) => Some(*most),
            Err(_) => None,
        };
        let verdict = preflight_borrow(&self.opportunity, &self.request, maximum);
        if verdict.is_ok() {
            self.borrowable = found;
            self.stage = OpenStage::Leverage;
        }
        verdict
    }

    /// Takes in whether both legs have their leverage.
    pub fn on_leverage(&mut self, set: Result<(), Failure>) -> (r: Result<(), Failure>)
        requires
            old(self).wf(),
            old(self).stage is Leverage,
        ensures
            final(self).wf(),
            match set {
                Ok(_) => r is Ok && *final(self) == (OpenRun { stage: OpenStage::Orders, ..*old(self) }),
                Err(f) => {
                    &&& *final(self) == *old(self)
                    &&& r matches Err(e)
                    &&& e.wraps(Reason::LeverageSetup, f)
                },
            },
    {
        let verdict = check_leverage(set);
        if verdict.is_ok() {
            self.stage = OpenStage::Orders;
        }
        verdict
    }

    /// Where each leg should stand after the trade.
    fn targets(&self) -> (t: (Double, Double))
        ensures
            t == (
                self.current_long.add_spec(self.request.notional_usdt),
                self.current_short.add_spec(self.request.notional_usdt),
            ),
    {
        (
            self.current_long.add(self.request.notional_usdt),
            self.current_short.add(self.request.notional_usdt),
        )
    }

    /// The two orders that are sent at once: at the market, or at the quoted
    /// prices where the spread is guarded.
    fn orders(&self) -> (pair: (OrderPlan, OrderPlan))
        ensures
            self.sends(pair.0, pair.1),
    {
        if self.request.spread_guard {
            (
                limit_order(&self.opportunity.long, "Buy", self.long_qty, self.opportunity.long.ask, false),
                limit_order(
                    &self.opportunity.short,
                    "Sell",
                    self.short_qty,
                    self.opportunity.short.bid,
                    false,
                ),
            )
        } else {
            (
                market_order(&self.opportunity.long, "Buy", self.long_qty, false),
                market_order(&self.opportunity.short, "Sell", self.short_qty, false),
            )
        }
    }

    /// Takes in the orders that were filled.
    pub fn on_orders(&mut self, long: Option<OrderExecution>, short: Option<OrderExecution>)
        requires
            old(self).wf(),
            old(self).stage is Orders,
        ensures
            final(self).wf(),
            *final(self) == (OpenRun {
                stage: OpenStage::Lift,
                report: ExecutionReport { orders: final(self).report.orders, ..old(self).report },
                ..*old(self)
            }),
            final(self).report.orders@ == with_orders(old(self).report.orders@, long, short),
    {
        self.stage = OpenStage::Lift;
        if let Some(order) = long {
            self.report.orders.push(order);
        }
        if let Some(order) = short {
            self.report.orders.push(order);
        }
        proof {
            assert(self.report.orders@ =~= with_orders(old(self).report.orders@, long, short));
        }
    }

    /// Takes in how the legs were lifted to their targets.
    pub fn on_phase_one(
        &mut self,
        long_attempts: u8,
        long_anomalies: u8,
        long_orders: Vec<OrderExecution>,
        short_attempts: u8,
        short_anomalies: u8,
        short_orders: Vec<OrderExecution>,
    )
        requires
            old(self).wf(),
            old(self).stage is Lift,
        ensures
            final(self).wf(),
            *final(self) == (OpenRun {
                stage: OpenStage::Even,
                report: ExecutionReport {
                    phase_one_long_attempts: long_attempts,
                    phase_one_short_attempts: short_attempts,
                    phase_one_long_anomalies: long_anomalies,
                    phase_one_short_anomalies: short_anomalies,
                    supplement_orders: final(self).report.supplement_orders,
                    ..old(self).report
                },
                ..*old(self)
            }),
            final(self).report.supplement_orders@ == old(self).report.supplement_orders@ + long_orders@
                + short_orders@,
    {
        self.stage = OpenStage::Even;
        self.report.phase_one_long_attempts = long_attempts;
        self.report.phase_one_short_attempts = short_attempts;
        self.report.phase_one_long_anomalies = long_anomalies;
        self.report.phase_one_short_anomalies = short_anomalies;
        let mut long_orders = long_orders;
        let mut short_orders = short_orders;
        self.report.supplement_orders.append(&mut long_orders);
        self.report.supplement_orders.append(&mut short_orders);
    }

    /// The position that came of the trade.
    pub open spec fn opened(self, position: Position, long: PositionLeg, short: PositionLeg, now: i64) -> bool {
        let zero = Double { bits: ZERO };
        &&& position == with_roi(
            Position {
                id: position.id,
                token: self.opportunity.token.symbol,
                status: position.status,
                opened_at: now,
                notional_usdt: notional(long).add_spec(notional(short)).div_spec(Double { bits: TWO }),
                leverage: self.request.leverage,
                long,
                short,
                funding_earned: zero,
                unrealized_pnl: zero,
                current_pnl_usdt: zero,
                current_roi: zero,
                roi_basis_usdt: margin_basis(long, short),
                current_funding_per_hour: None,
                current_spread: None,
                current_apy: None,
            },
        )
        &&& position.id@ == "live-"@ + self.opportunity.token.symbol@
        &&& position.status@ == "open"@
    }

    /// Ends the trade: it has succeeded where both legs are there, hedge each
    /// other, and a guarded trade has added something.
    pub fn finish(
        self,
        long: Option<PositionLeg>,
        short: Option<PositionLeg>,
        attempts: u8,
        anomalies: u8,
        orders: Vec<OrderExecution>,
        now: i64,
    ) -> (r: Result<TradeResponse, Failure>)
        requires
            self.wf(),
            self.stage is Even,
        ensures
            ({
                let ln = notional_or_zero(long);
                let sn = notional_or_zero(short);
                let gap = mismatch(long, short);
                if !balanced(long, short) {
                    &&& r matches Err(f)
                    &&& f.cause is None
                    &&& if mismatched(
                        ln,
                        sn,
                        Double { bits: POSITION_RECONCILIATION_TOLERANCE_RATIO },
                    ) {
                        f.reason == (Reason::PhaseTwoExhausted {
                            attempts: attempts as u64,
                            anomalies: anomalies as u64,
                            mismatch: gap,
                            percent: mismatch_percent(long, short, gap),
                        })
                    } else if self.request.spread_guard {
                        f.reason == (Reason::SpreadNoFillResidual { mismatch: gap })
                    } else {
                        f.reason == (Reason::IncompleteLeg { mismatch: gap })
                    }
                } else if self.request.spread_guard && ln.min_spec(sn).sub_spec(
                    self.current_long.min_spec(self.current_short),
                ).lt_spec(Double { bits: ONE }) {
                    r matches Err(f) && f == plain(Reason::SpreadNoFill)
                } else {
                    &&& r matches Ok(response)
                    &&& self.opened(response.position, long->0, short->0, now)
                    &&& response.mode@ == "live"@
                    &&& response.message@ == (if self.is_increase {
                        "双腿已并发加仓并完成仓位对齐"@
                    } else {
                        "双腿已并发成交并完成仓位对齐"@
                    })
                    &&& response.execution matches Some(report)
                    &&& report == (ExecutionReport {
                        outcome: report.outcome,
                        long_notional_usdt: ln,
                        short_notional_usdt: sn,
                        balanced: true,
                        phase_two_attempts: attempts,
                        phase_two_anomalies: anomalies,
                        rebalance_orders: report.rebalance_orders,
                        ..self.report
                    })
                    &&& report.outcome@ == "filled_and_balanced"@
                    &&& report.rebalance_orders@ == self.report.rebalance_orders@ + orders@
                }
            }),
    {
        let ln = optional_notional(&long);
        let sn = optional_notional(&short);
        let hedged: bool = paired_positions_are_balanced(&long, &short);
        if !hedged {
            let gap = ln.sub(sn).abs();
            let percent = match (&long, &short) {
                (Some(l), Some(s)) => hedge_notional_imbalance_ratio(l, s).mul(Double { bits: HUNDRED }),
                _ => if gap.gt(Double { bits: EPSILON }) {
                    Double { bits: HUNDRED }
                } else {
                    Double { bits: ZERO }
                },
            };
            if notional_mismatch_exceeds_values(
                ln,
                sn,
                Double { bits: POSITION_RECONCILIATION_TOLERANCE_RATIO },
            ) {
                return Err(
                    Failure::new(
                        Reason::PhaseTwoExhausted {
                            attempts: attempts as u64,
                            anomalies: anomalies as u64,
                            mismatch: gap,
                            percent,
                        },
                    ),
                );
            }
            if self.request.spread_guard {
                return Err(Failure::new(Reason::SpreadNoFillResidual { mismatch: gap }));
            }
            return Err(Failure::new(Reason::IncompleteLeg { mismatch: gap }));
        }
        let added = ln.min(sn).sub(self.current_long.min(self.current_short));
        if self.request.spread_guard && added.lt(Double { bits: ONE }) {
            return Err(Failure::new(Reason::SpreadNoFill));
        }
        match (long, short) {
            (Some(l), Some(s)) => {
                let zero = Double { bits: ZERO };
                let mut report = self.report;
                report.phase_two_attempts = attempts;
                report.phase_two_anomalies = anomalies;
                let mut orders = orders;
                report.rebalance_orders.append(&mut orders);
                report.long_notional_usdt = ln;
                report.short_notional_usdt = sn;
                report.balanced = true;
                report.outcome = "filled_and_balanced".to_owned();
                let basis = position_margin_basis(&l, &s);
                let mut position = Position {
                    id: join("live-", self.opportunity.token.symbol.as_str()),
                    token: self.opportunity.token.symbol,
                    status: "open".to_owned(),
                    opened_at: now,
                    notional_usdt: ln.add(sn).div(Double { bits: TWO }),
                    leverage: self.request.leverage,
                    long: l,
                    short: s,
                    funding_earned: zero,
                    unrealized_pnl: zero,
                    current_pnl_usdt: zero,
                    current_roi: zero,
                    roi_basis_usdt: basis,
                    current_funding_per_hour: None,
                    current_spread: None,
                    current_apy: None,
                };
                update_position_roi(&mut position);
                let message = if self.is_increase {
                    "双腿已并发加仓并完成仓位对齐".to_owned()
                } else {
                    "双腿已并发成交并完成仓位对齐".to_owned()
                };
                Ok(TradeResponse { position, mode: "live".to_owned(), message, execution: Some(report) })
            },
            _ => {
                proof {
                    assert(false);
                }
                Err(Failure::new(Reason::SpreadNoFill))
            },
        }
    }
}

/// The orders with those that were filled, the long one first.
pub open spec fn with_orders(
    orders: Seq<OrderExecution>,
    long: Option<OrderExecution>,
    short: Option<OrderExecution>,
) -> Seq<OrderExecution> {
    let one = if long is Some {
        orders.push(long->0)
    } else {
        orders
    };
    if short is Some {
        one.push(short->0)
    } else {
        one
    }
}

/// Nothing is sent before everything is known: an opening sends its orders only
/// where the free balances cover its margin and the reserve on both exchanges,
/// and what it borrows can be borrowed.
pub proof fn lemma_orders_follow_the_checks(run: OpenRun)
    requires
        run.wf(),
        run.stage is Orders,
    ensures
        run.free matches Some(free) && margin_covered(run.opportunity, run.request, free.0, free.1),
        borrows(run.opportunity) ==> (run.borrowable matches Some(most) && loan_covered(
            run.opportunity,
            run.request,
            most,
        )),
{
}

/// Success of an opening means that both legs are there and hedge each other.
pub proof fn lemma_opened_is_hedged(long: Option<PositionLeg>, short: Option<PositionLeg>)
    requires
        balanced(long, short),
    ensures
        long is Some,
        short is Some,
        !mismatched(
            notional(long->0),
            notional(short->0),
            Double { bits: POSITION_RECONCILIATION_TOLERANCE_RATIO },
        ),
{
}

/// Whether a reduction leaves something of both legs.
pub open spec fn reducible(position: Position, amount: Double) -> bool {
    !notional(position.long).min_spec(notional(position.short)).le_spec(amount)
}

/// Refuses a reduction that would take a whole leg.
pub fn check_reduction(position: &Position, notional_usdt: Double) -> (r: Result<(), Failure>)
    ensures
        if reducible(*position, notional_usdt) {
            r is Ok
        } else {
            r == Err::<(), Failure>(plain(Reason::ReductionTooClose))
        },
{
    let smaller = position_notional(&position.long).min(position_notional(&position.short));
    if notional_usdt.ge(smaller) {
        return Err(Failure::new(Reason::ReductionTooClose));
    }
    Ok(())
}

/// The metadata of the two legs of a position.
pub fn leg_metadata(legs: &Vec<Leg>, position: &Position) -> (r: Result<(Leg, Leg), Failure>)
    ensures
        ({
            let long = metadata_of(
                legs@,
                position.long.exchange@,
                position.long.market@,
                position.long.symbol@,
            );
            let short = metadata_of(
                legs@,
                position.short.exchange@,
                position.short.market@,
                position.short.symbol@,
            );
            if long is None {
                r matches Err(f) && f == plain(Reason::LongMetadata)
            } else if short is None {
                r matches Err(f) && f == plain(Reason::ShortMetadata)
            } else {
                r matches Ok(pair) && pair.0.copies(legs@[long->0]) && pair.1.copies(legs@[short->0])
            }
        }),
{
    let long = match find_metadata(
        legs,
        position.long.exchange.as_str(),
        position.long.market.as_str(),
        position.long.symbol.as_str(),
    ) {
        Some(i) => i,
        None => return Err(Failure::new(Reason::LongMetadata)),
    };
    let short = match find_metadata(
        legs,
        position.short.exchange.as_str(),
        position.short.market.as_str(),
        position.short.symbol.as_str(),
    ) {
        Some(i) => i,
        None => return Err(Failure::new(Reason::ShortMetadata)),
    };
    Ok((legs[long].clone(), legs[short].clone()))
}

/// Where a reduction stands.
#[derive(Clone, Copy, Debug, PartialEq, Eq, Structural)]
pub enum ReduceStage {
    /// Sending both orders.
    Orders,
    /// Cutting the larger leg down to the smaller one.
    Even,
}

/// What a reduction asks for next.
#[derive(Debug)]
pub enum ReduceAction {
    /// Send both orders at once.
    Send { long: OrderPlan, short: OrderPlan },
    /// Cut the larger leg down to the smaller one.
    EvenOut,
}

/// Reducing a position on the exchanges.
pub struct ReduceRun {
    pub stage: ReduceStage,
    pub position: Position,
    pub amount: Double,
    pub tolerance: Double,
    pub long_qty: Double,
    pub short_qty: Double,
    pub report: ExecutionReport,
}

impl ReduceRun {
    /// Works out the orders of a reduction, which leaves something of both
    /// legs.
    pub fn new(
        position: Position,
        amount: Double,
        long_step: Double,
        short_step: Double,
        tolerance: Double,
        max_slippage_bps: u32,
    ) -> (r: Result<ReduceRun, Failure>)
        ensures
            ({
                let zero = Double { bits: ZERO };
                let long_qty = floored(amount.div_spec(position.long.mark_price), long_step);
                let short_qty = floored(amount.div_spec(position.short.mark_price), short_step);
                if !reducible(position, amount) {
                    r matches Err(f) && f == plain(Reason::ReductionTooClose)
                } else if long_qty.le_spec(zero) || short_qty.le_spec(zero) {
                    r matches Err(f) && f == plain(Reason::ZeroReduction)
                } else {
                    &&& r matches Ok(run)
                    &&& run.stage is Orders
                    &&& run.position == position
                    &&& run.amount == amount
                    &&& run.tolerance == tolerance
                    &&& run.long_qty == long_qty
                    &&& run.short_qty == short_qty
                    &&& is_fresh(
                        run.report,
                        "reducing"@,
                        max_slippage_bps,
                        amount,
                        notional(position.long),
                        notional(position.short),
                        tolerance,
                        false,
                    )
                }
            }),
            r matches Ok(run) ==> amount.finite() && !amount.negative() ==> {
                &&& reckons(position.long.mark_price, long_step) && run.long_qty.finite() ==> worth_up_to_a_step(
                    run.long_qty,
                    position.long.mark_price,
                    amount.value(),
                    long_step,
                )
                &&& reckons(position.short.mark_price, short_step) && run.short_qty.finite() ==> worth_up_to_a_step(
                    run.short_qty,
                    position.short.mark_price,
                    amount.value(),
                    short_step,
                )
            },
    {
        proof {
            if amount.finite() && !amount.negative() {
                if reckons(position.long.mark_price, long_step) {
                    lemma_worth_of_a_request(amount, position.long.mark_price, long_step);
                }
                if reckons(position.short.mark_price, short_step) {
                    lemma_worth_of_a_request(amount, position.short.mark_price, short_step);
                }
            }
        }
        let room = check_reduction(&position, amount);
        if let Err(f) = room {
            return Err(f);
        }
        let zero = Double { bits: ZERO };
        let long_qty = floor_step(amount.div(position.long.mark_price), long_step);
        let short_qty = floor_step(amount.div(position.short.mark_price), short_step);
        if long_qty.le(zero) || short_qty.le(zero) {
            return Err(Failure::new(Reason::ZeroReduction));
        }
        let report = fresh_report(
            "reducing",
            max_slippage_bps,
            amount,
            position_notional(&position.long),
            position_notional(&position.short),
            tolerance,
            false,
        );
        Ok(ReduceRun { stage: ReduceStage::Orders, position, amount, tolerance, long_qty, short_qty, report })
    }

    /// What comes next: two reduce-only orders that are sent at once, then
    /// evening out what they left.
    pub fn next(&self) -> (action: ReduceAction)
        ensures
            match self.stage {
                ReduceStage::Orders => {
                    &&& action matches ReduceAction::Send { long, short }
                    &&& plans_on(long, self.position.long, "Sell"@, self.long_qty)
                    &&& plans_on(short, self.position.short, "Buy"@, self.short_qty)
                },
                ReduceStage::Even => action is EvenOut,
            },
    {
        match self.stage {
            ReduceStage::Orders => ReduceAction::Send {
                long: reducing_order(&self.position.long, "Sell", self.long_qty),
                short: reducing_order(&self.position.short, "Buy", self.short_qty),
            },
            ReduceStage::Even => ReduceAction::EvenOut,
        }
    }

    /// Takes in the orders that were filled.
    pub fn on_orders(&mut self, long: Option<OrderExecution>, short: Option<OrderExecution>)
        requires
            old(self).stage is Orders,
        ensures
            *final(self) == (ReduceRun {
                stage: ReduceStage::Even,
                report: ExecutionReport { orders: final(self).report.orders, ..old(self).report },
                ..*old(self)
            }),
            final(self).report.orders@ == with_orders(old(self).report.orders@, long, short),
    {
        self.stage = ReduceStage::Even;
        if let Some(order) = long {
            self.report.orders.push(order);
        }
        if let Some(order) = short {
            self.report.orders.push(order);
        }
        proof {
            assert(self.report.orders@ =~= with_orders(old(self).report.orders@, long, short));
        }
    }

    /// How much a leg has shrunk, valued at the mark from before.
    pub open spec fn shrunk(before: PositionLeg, after: PositionLeg) -> Double {
        reduced_notional(before.quantity, after.quantity, before.mark_price)
    }

    /// Whether a leg has shrunk by too little.
    pub open spec fn missed(self, shrunk: Double) -> bool {
        shrunk.lt_spec(self.amount.sub_spec(self.tolerance))
    }

    /// The position that is left.
    pub open spec fn reduced(self, position: Position, long: PositionLeg, short: PositionLeg) -> bool {
        let zero = Double { bits: ZERO };
        &&& position == with_roi(
            Position {
                status: position.status,
                notional_usdt: notional(long).add_spec(notional(short)).div_spec(Double { bits: TWO }),
                long,
                short,
                unrealized_pnl: long.unrealized_pnl.add_spec(short.unrealized_pnl),
                current_pnl_usdt: zero,
                current_roi: zero,
                roi_basis_usdt: margin_basis(long, short),
                ..self.position
            },
        )
        &&& position.status@ == "open"@
    }

    /// Ends the reduction: it has succeeded where both legs are there, hedge
    /// each other, and both have shrunk by the amount, up to the tolerance.
    pub fn finish(
        self,
        long: Option<PositionLeg>,
        short: Option<PositionLeg>,
        attempts: u8,
        anomalies: u8,
        orders: Vec<OrderExecution>,
    ) -> (r: Result<TradeResponse, Failure>)
        requires
            self.stage is Even,
        ensures
            ({
                let ln = notional_or_zero(long);
                let sn = notional_or_zero(short);
                if !balanced(long, short) {
                    r matches Err(f) && f == plain(
                        Reason::ReductionNaked {
                            mismatch: mismatch(long, short),
                            percent: if long is Some && short is Some {
                                imbalance(ln, sn).mul_spec(Double { bits: HUNDRED })
                            } else {
                                Double { bits: HUNDRED }
                            },
                        },
                    )
                } else {
                    let long_shrunk = Self::shrunk(self.position.long, long->0);
                    let short_shrunk = Self::shrunk(self.position.short, short->0);
                    if self.missed(long_shrunk) || self.missed(short_shrunk) {
                        r matches Err(f) && f == plain(
                            Reason::ReductionMissed {
                                target: self.amount,
                                long: long_shrunk,
                                short: short_shrunk,
                            },
                        )
                    } else {
                        &&& r matches Ok(response)
                        &&& self.reduced(response.position, long->0, short->0)
                        &&& response.mode@ == "live"@
                        &&& response.message@ == "双腿已并发减仓并完成仓位对齐"@
                        &&& response.execution matches Some(report)
                        &&& report == (ExecutionReport {
                            outcome: report.outcome,
                            long_notional_usdt: ln,
                            short_notional_usdt: sn,
                            balanced: true,
                            phase_two_attempts: attempts,
                            phase_two_anomalies: anomalies,
                            rebalance_orders: report.rebalance_orders,
                            ..self.report
                        })
                        &&& report.outcome@ == "reduced_and_balanced"@
                        &&& report.rebalance_orders@ == self.report.rebalance_orders@ + orders@
                    }
                }
            }),
    {
        let ln = optional_notional(&long);
        let sn = optional_notional(&short);
        let hedged: bool = paired_positions_are_balanced(&long, &short);
        match (long, short) {
            (Some(l), Some(s)) => {
                if !hedged {
                    let percent = hedge_notional_imbalance_ratio(&l, &s).mul(Double { bits: HUNDRED });
                    return Err(
                        Failure::new(Reason::ReductionNaked { mismatch: ln.sub(sn).abs(), percent }),
                    );
                }
                let long_shrunk = reduced_notional_at_reference(
                    self.position.long.quantity,
                    l.quantity,
                    self.position.long.mark_price,
                );
                let short_shrunk = reduced_notional_at_reference(
                    self.position.short.quantity,
                    s.quantity,
                    self.position.short.mark_price,
                );
                let least = self.amount.sub(self.tolerance);
                if long_shrunk.lt(least) || short_shrunk.lt(least) {
                    return Err(
                        Failure::new(
                            Reason::ReductionMissed {
                                target: self.amount,
                                long: long_shrunk,
                                short: short_shrunk,
                            },
                        ),
                    );
                }
                let zero = Double { bits: ZERO };
                let mut report = self.report;
                report.phase_two_attempts = attempts;
                report.phase_two_anomalies = anomalies;
                let mut orders = orders;
                report.rebalance_orders.append(&mut orders);
                report.long_notional_usdt = ln;
                report.short_notional_usdt = sn;
                report.balanced = true;
                report.outcome = "reduced_and_balanced".to_owned();
                let mut position = self.position;
                position.status = "open".to_owned();
                position.notional_usdt = ln.add(sn).div(Double { bits: TWO });
                position.unrealized_pnl = l.unrealized_pnl.add(s.unrealized_pnl);
                position.current_pnl_usdt = zero;
                position.current_roi = zero;
                position.roi_basis_usdt = position_margin_basis(&l, &s);
                position.long = l;
                position.short = s;
                update_position_roi(&mut position);
                Ok(
                    TradeResponse {
                        position,
                        mode: "live".to_owned(),
                        message: "双腿已并发减仓并完成仓位对齐".to_owned(),
                        execution: Some(report),
                    },
                )
            },
            _ => Err(
                Failure::new(
                    Reason::ReductionNaked {
                        mismatch: ln.sub(sn).abs(),
                        percent: Double { bits: HUNDRED },
                    },
                ),
            ),
        }
    }
}

/// Where a close stands: what has to be done or found out next.
#[derive(Clone, Copy, Debug, PartialEq, Eq, Structural)]
pub enum CloseStage {
    /// Closing the long leg.
    Long,
    /// Closing the short leg.
    Short,
    /// Finding the market that a debt is bought back on.
    Market,
    /// What is still owed.
    Debt,
    /// Buying back what is owed.
    Repay,
    /// What is owed in the end.
    LastDebt,
    /// Both legs are closed and nothing is owed.
    Closed,
}

/// What a close asks for next.
#[derive(Debug)]
pub enum CloseAction {
    /// Send the order that closes the long leg.
    CloseLong { order: OrderPlan },
    /// Send the order that closes the short leg.
    CloseShort { order: OrderPlan },
    /// Find the markets that can be traded.
    FindMarkets,
    /// Find out what is still owed on a market.
    FindDebt { market: Leg },
    /// Send the order that pays back what is owed.
    Repay { order: OrderPlan },
    /// Find out for the last time what is owed on a market.
    FindLastDebt { market: Leg },
    /// The close went through.
    Finish,
}

/// Closing a position on the exchanges.
pub struct CloseRun {
    pub position: Position,
    pub stage: CloseStage,
    pub report: ExecutionReport,
    /// The market that a debt is bought back on.
    pub market: Option<Leg>,
    /// How much is owed.
    pub owed: Double,
    pub repayments: u8,
    /// Whether the debt was seen to be gone.
    pub debt_gone: bool,
}

/// Whether a close has a debt to pay back: that of a coin sold short.
pub open spec fn owes(position: Position) -> bool {
    position.short.market@ == "spot"@
}

impl CloseRun {
    /// A close holds the orders that were confirmed: none, that of the long leg,
    /// or both. It is over only with both, and with no debt left of a coin sold
    /// short.
    pub open spec fn wf(self) -> bool {
        &&& self.report.orders@.len() == (match self.stage {
            CloseStage::Long => 0nat,
            CloseStage::Short => 1nat,
            _ => 2nat,
        })
        &&& self.repayments <= MAX_RECONCILIATION_ATTEMPTS
        &&& self.report.supplement_orders@.len() + (if self.stage is Repay {
            1int
        } else {
            0int
        }) <= self.repayments
        &&& match self.stage {
            CloseStage::Debt => self.market is Some && self.repayments < MAX_RECONCILIATION_ATTEMPTS,
            CloseStage::Repay | CloseStage::LastDebt => self.market is Some,
            CloseStage::Closed => owes(self.position) ==> self.debt_gone,
            _ => self.repayments == 0,
        }
    }

    pub fn new(position: Position, tolerance: Double, max_slippage_bps: u32) -> (run: CloseRun)
        ensures
            run.wf(),
            run.position == position,
            run.stage is Long,
            run.market is None,
            run.repayments == 0,
            !run.debt_gone,
            is_fresh(
                run.report,
                "closing"@,
                max_slippage_bps,
                position.notional_usdt,
                notional(position.long),
                notional(position.short),
                tolerance,
                true,
            ),
    {
        let report = fresh_report(
            "closing",
            max_slippage_bps,
            position.notional_usdt,
            position_notional(&position.long),
            position_notional(&position.short),
            tolerance,
            true,
        );
        CloseRun {
            position,
            stage: CloseStage::Long,
            report,
            market: None,
            owed: Double { bits: ZERO },
            repayments: 0,
            debt_gone: false,
        }
    }

    /// What comes next. The long leg goes first; what was borrowed is bought back
    /// in whole steps that cover it.
    pub fn next(&self) -> (action: CloseAction)
        requires
            self.wf(),
        ensures
            match self.stage {
                CloseStage::Long => action matches CloseAction::CloseLong { order } && plans_on(
                    order,
                    self.position.long,
                    "Sell"@,
                    self.position.long.quantity,
                ),
                CloseStage::Short => action matches CloseAction::CloseShort { order } && plans_on(
                    order,
                    self.position.short,
                    "Buy"@,
                    self.position.short.quantity,
                ),
                CloseStage::Market => action is FindMarkets,
                CloseStage::Debt => action matches CloseAction::FindDebt { market } && market.copies(self.market->0),
                CloseStage::Repay => action matches CloseAction::Repay { order } && plans(
                    order,
                    self.market->0,
                    "Buy"@,
                    raised(self.owed, self.market->0.qty_step),
                    true,
                    None,
                ),
                CloseStage::LastDebt => action matches CloseAction::FindLastDebt { market } && market.copies(
                    self.market->0,
                ),
                CloseStage::Closed => action is Finish,
            },
    {
        match self.stage {
            CloseStage::Long => CloseAction::CloseLong {
                order: reducing_order(&self.position.long, "Sell", self.position.long.quantity),
            },
            CloseStage::Short => CloseAction::CloseShort {
                order: reducing_order(&self.position.short, "Buy", self.position.short.quantity),
            },
            CloseStage::Market => CloseAction::FindMarkets,
            CloseStage::Closed => CloseAction::Finish,
            CloseStage::Debt => match &self.market {
                Some(market) => CloseAction::FindDebt { market: market.clone() },
                None => CloseAction::FindMarkets,
            },
            CloseStage::LastDebt => match &self.market {
                Some(market) => CloseAction::FindLastDebt { market: market.clone() },
                None => CloseAction::FindMarkets,
            },
            CloseStage::Repay => match &self.market {
                Some(market) => CloseAction::Repay {
                    order: market_order(market, "Buy", ceil_step(self.owed, market.qty_step), true),
                },
                None => CloseAction::FindMarkets,
            },
        }
    }

    /// Takes in the close of the long leg. Nothing more is sent where it failed.
    pub fn on_long(&mut self, order: Result<OrderExecution, Failure>) -> (r: Result<(), Failure>)
        requires
            old(self).wf(),
            old(self).stage is Long,
        ensures
            final(self).wf(),
            match order {
                Err(f) => r == Err::<(), Failure>(f) && *final(self) == *old(self),
                Ok(o) => {
                    &&& r is Ok
                    &&& *final(self) == (CloseRun {
                        stage: CloseStage::Short,
                        report: ExecutionReport { orders: final(self).report.orders, ..old(self).report },
                        ..*old(self)
                    })
                    &&& final(self).report.orders@ == old(self).report.orders@.push(o)
                },
            },
    {
        match order {
            Err(f) => Err(f),
            Ok(o) => {
                self.stage = CloseStage::Short;
                self.report.orders.push(o);
                Ok(())
            },
        }
    }

    /// Takes in the close of the short leg: where it failed, the short leg
    /// stands without its hedge. A coin sold short may still be owed.
    pub fn on_short(&mut self, order: Result<OrderExecution, Failure>) -> (r: Result<(), Failure>)
        requires
            old(self).wf(),
            old(self).stage is Short,
        ensures
            final(self).wf(),
            match order {
                Err(f) => {
                    &&& *final(self) == *old(self)
                    &&& r matches Err(e)
                    &&& e.reason is CloseNaked
                    &&& e.cause is Some
                    &&& e.cause->0@ == f.chain()
                },
                Ok(o) => {
                    &&& r is Ok
                    &&& *final(self) == (CloseRun {
                        stage: if owes(old(self).position) {
                            CloseStage::Market
                        } else {
                            CloseStage::Closed
                        },
                        report: ExecutionReport { orders: final(self).report.orders, ..old(self).report },
                        ..*old(self)
                    })
                    &&& final(self).report.orders@ == old(self).report.orders@.push(o)
                },
            },
    {
        match order {
            Err(f) => Err(Failure::because(Reason::CloseNaked, f.detail())),
            Ok(o) => {
                self.report.orders.push(o);
                self.stage = if same(self.position.short.market.as_str(), "spot") {
                    CloseStage::Market
                } else {
                    CloseStage::Closed
                };
                Ok(())
            },
        }
    }

    /// Takes in the markets that can be traded: a debt is bought back on that of
    /// the short leg.
    pub fn on_markets(&mut self, markets: Result<Vec<Leg>, Failure>) -> (r: Result<(), Failure>)
        requires
            old(self).wf(),
            old(self).stage is Market,
        ensures
            final(self).wf(),
            match markets {
                Err(f) => r == Err::<(), Failure>(f) && *final(self) == *old(self),
                Ok(legs) => match metadata_of(
                    legs@,
                    old(self).position.short.exchange@,
                    old(self).position.short.market@,
                    old(self).position.short.symbol@,
                ) {
                    Some(i) => {
                        &&& r is Ok
                        &&& *final(self) == (CloseRun {
                            stage: CloseStage::Debt,
                            market: final(self).market,
                            ..*old(self)
                        })
                        &&& final(self).market matches Some(market)
                        &&& market.copies(legs@[i])
                    },
                    None => r == Err::<(), Failure>(plain(Reason::SpotMetadata)) && *final(self) == *old(self),
                },
            },
    {
        match markets {
            Err(f) => Err(f),
            Ok(legs) => {
                let short = &self.position.short;
                match find_metadata(&legs, short.exchange.as_str(), short.market.as_str(), short.symbol.as_str()) {
                    Some(i) => {
                        self.market = Some(legs[i].clone());
                        self.stage = CloseStage::Debt;
                        Ok(())
                    },
                    None => Err(Failure::new(Reason::SpotMetadata)),
                }
            },
        }
    }

    /// Takes in what is still owed: it is bought back.
    pub fn on_debt(&mut self, residual: Result<Option<PositionLeg>, Failure>) -> (r: Result<(), Failure>)
        requires
            old(self).wf(),
            old(self).stage is Debt,
        ensures
            final(self).wf(),
            match residual {
                Err(f) => r == Err::<(), Failure>(f) && *final(self) == *old(self),
                Ok(Some(leg)) => r is Ok && *final(self) == (CloseRun {
                    stage: CloseStage::Repay,
                    owed: leg.quantity,
                    repayments: (old(self).repayments + 1) as u8,
                    ..*old(self)
                }),
                Ok(None) => r is Ok && *final(self) == (CloseRun { stage: CloseStage::LastDebt, ..*old(self) }),
            },
    {
        match residual {
            Err(f) => Err(f),
            Ok(Some(leg)) => {
                self.stage = CloseStage::Repay;
                self.owed = leg.quantity;
                self.repayments = self.repayments + 1;
                Ok(())
            },
            Ok(None) => {
                self.stage = CloseStage::LastDebt;
                Ok(())
            },
        }
    }

    /// Takes in a purchase that pays back a debt: at most three are made.
    pub fn on_repayment(&mut self, order: Result<OrderExecution, Failure>) -> (r: Result<(), Failure>)
        requires
            old(self).wf(),
            old(self).stage is Repay,
        ensures
            final(self).wf(),
            match order {
                Err(f) => {
                    &&& *final(self) == *old(self)
                    &&& r matches Err(e)
                    &&& e.reason is Repayment
                    &&& e.cause is Some
                    &&& e.cause->0@ == f.chain()
                },
                Ok(o) => {
                    &&& r is Ok
                    &&& *final(self) == (CloseRun {
                        stage: if old(self).repayments < MAX_RECONCILIATION_ATTEMPTS {
                            CloseStage::Debt
                        } else {
                            CloseStage::LastDebt
                        },
                        report: ExecutionReport {
                            supplement_orders: final(self).report.supplement_orders,
                            ..old(self).report
                        },
                        ..*old(self)
                    })
                    &&& final(self).report.supplement_orders@ == old(self).report.supplement_orders@.push(o)
                },
            },
    {
        match order {
            Err(f) => Err(Failure::because(Reason::Repayment, f.detail())),
            Ok(o) => {
                self.report.supplement_orders.push(o);
                self.stage = if self.repayments < MAX_RECONCILIATION_ATTEMPTS {
                    CloseStage::Debt
                } else {
                    CloseStage::LastDebt
                };
                Ok(())
            },
        }
    }

    /// Takes in what is owed in the end. A position is not called closed while
    /// something is.
    pub fn on_last_debt(&mut self, residual: Result<Option<PositionLeg>, Failure>) -> (r: Result<(), Failure>)
        requires
            old(self).wf(),
            old(self).stage is LastDebt,
        ensures
            final(self).wf(),
            match residual {
                Err(f) => r == Err::<(), Failure>(f) && *final(self) == *old(self),
                Ok(Some(_)) => r == Err::<(), Failure>(plain(Reason::DebtRemains)) && *final(self) == *old(self),
                Ok(None) => r is Ok && *final(self) == (CloseRun {
                    stage: CloseStage::Closed,
                    debt_gone: true,
                    ..*old(self)
                }),
            },
    {
        match residual {
            Err(f) => Err(f),
            Ok(Some(_)) => Err(Failure::new(Reason::DebtRemains)),
            Ok(None) => {
                self.stage = CloseStage::Closed;
                self.debt_gone = true;
                Ok(())
            },
        }
    }

    /// The answer to a close that went through: both orders are confirmed.
    pub fn finish(self) -> (response: TradeResponse)
        requires
            self.wf(),
            self.stage is Closed,
        ensures
            response.position == (Position { status: response.position.status, ..self.position }),
            response.position.status@ == "closed"@,
            response.mode@ == "live"@,
            response.message@ == "双腿平仓单已确认成交"@,
            response.execution is Some,
            response.execution->0 == (ExecutionReport {
                outcome: response.execution->0.outcome,
                ..self.report
            }),
            response.execution->0.outcome@ == "closed"@,
            response.execution->0.orders@.len() == 2,
            response.execution->0.supplement_orders@.len() <= MAX_RECONCILIATION_ATTEMPTS,
    {
        let mut report = self.report;
        report.outcome = "closed".to_owned();
        let mut position = self.position;
        position.status = "closed".to_owned();
        TradeResponse {
            position,
            mode: "live".to_owned(),
            message: "双腿平仓单已确认成交".to_owned(),
            execution: Some(report),
        }
    }
}

/// A position is called closed only after both closing orders were confirmed
/// and, where a coin was sold short, nothing of it is owed.
pub proof fn lemma_closed_is_confirmed(run: CloseRun)
    requires
        run.wf(),
        run.stage is Closed,
    ensures
        run.report.orders@.len() == 2,
        owes(run.position) ==> run.debt_gone,
{
}

} // verus!
