//! Opening a position in small limit orders while the spread is good.

use crate::failure::{Failure, Reason};
use crate::models::{
    BatchExecutionLog, BatchIncreaseRequest, BatchIncreaseTask, Leg, OpenTradeRequest, Opportunity, OrderExecution,
    Position,
};
use crate::num::constants::{EPSILON, FIFTY, ONE, TEN, ZERO};
use crate::num::decimal::{fixed, fixed_text};
use crate::num::Double;
use crate::text::{digits, digits_text};
use crate::trading::amounts::{floor_step, floored, is_ioc_no_fill, no_fill, open_allowed, spread_guard_allows};
use crate::trading::fills::{
    guard_matchable, guard_total, match_guard_fills_with_edge, matched_guard, unmatched_total,
    GuardUnmatchedFill,
};
use crate::trading::live::{
    balance_verdict, borrows, check_leverage, loan_covered, loan_verdict, margin_covered, needs_borrow,
    preflight_balance, preflight_borrow,
};
use crate::trading::logs::{
    append_logs, appended, bump, bumped, filled, filled_notional, guard_batch_log, guard_market_supplement_log,
    guard_message, is_fill_log,
};
use crate::trading::plan::{limit_order, market_order, plans, OrderPlan, Outcome};
use crate::trading::recovery::SpreadRecovery;
use crate::trading::tasks::{
    batch_cancelled, fail_batch_task, failed, record_spread_wait, restated, set_status, waited,
};
use crate::trading::books::{
    adds, grows_up_to, is_share, is_short_by, lemma_adds, lemma_grows_up_to, lemma_is_share, lemma_recoveries_are_owed,
};
use vstd::prelude::*;
use vstd::string::StringExecFns;

verus! {

/// The largest single order of a guarded task.
pub const SPREAD_GUARD_ORDER_CAP_USDT: u64 = FIFTY;

/// How often one batch tries to even out its legs.
pub const MAX_RECONCILIATION_ATTEMPTS: u8 = 3;

/// How long a guarded task waits for the next quote.
pub const SPREAD_GUARD_POLL_MILLIS: u64 = 250;

/// Where a guarded opening stands.
#[derive(Clone, Copy, Debug, PartialEq, Eq, Structural)]
pub enum GuardStage {
    /// It has not begun.
    Start,
    /// The free balances at Binance and Bybit.
    Balances,
    /// How much can be borrowed.
    Borrowable,
    /// Setting the leverage of both legs.
    Leverage,
    /// Between two batches.
    Head,
    /// The quotes of the next batch.
    Quote,
    /// Sending the orders of a batch.
    Orders,
    /// Evening out the legs of a batch.
    Even,
    /// Booking a batch whose legs are even.
    Book,
    Completed,
    Cancelled,
    Failed,
}

/// What a guarded opening asks for next.
#[derive(Debug)]
pub enum GuardAction {
    /// Begin.
    Begin,
    /// Find out the free balances at Binance and Bybit.
    FindBalances,
    /// Find out how much of a base can be borrowed.
    FindBorrowable { base: String },
    /// Set the leverage of both legs.
    SetLeverage { leverage: u8 },
    /// Look whether the task was cancelled.
    Look,
    /// Find the quotes of the route.
    FindQuote,
    /// Send the given orders at once.
    Send { long: Option<OrderPlan>, short: Option<OrderPlan> },
    /// Send this market order for the smaller side, where one can be sent.
    Supplement { order: Option<OrderPlan> },
    /// Check what the legs are apart by in the end.
    CheckResidual,
    /// Find the position and book the batch.
    Settle,
    /// End the task.
    Conclude,
    /// The task has ended.
    Stop,
}

/// The run of a guarded opening: what is agreed, what is done, and the batch at
/// hand.
pub struct GuardRun {
    pub opportunity: Opportunity,
    /// The whole opening as one trade, which the checks before it are made for.
    pub whole: OpenTradeRequest,
    pub stage: GuardStage,
    /// The free balances at Binance and Bybit that were found to be enough.
    pub free: Option<(Double, Double)>,
    /// What can be borrowed, found to be enough.
    pub borrowable: Option<Double>,
    pub threshold: Double,
    pub completed: Double,
    pub cumulative_edge_value: Double,
    pub recovery: SpreadRecovery,
    pub batch: usize,
    pub empty_attempts: u32,
    /// The quotes of the batch at hand.
    pub quote: Option<Opportunity>,
    pub unmatched_long: Vec<GuardUnmatchedFill>,
    pub unmatched_short: Vec<GuardUnmatchedFill>,
    pub matched: Double,
    pub edge_value: Double,
    pub attempt: u8,
    pub logs: Vec<BatchExecutionLog>,
}

/// A quantity that can be ordered.
pub open spec fn orderable(quantity: Double) -> bool {
    (Double { bits: ZERO }).lt_spec(quantity)
}

/// How much of a batch a whole order makes up at most, and how much is open.
pub open spec fn order_cap(remaining: Double) -> Double {
    (Double { bits: SPREAD_GUARD_ORDER_CAP_USDT }).min_spec(remaining)
}

/// How many batches the open amount takes.
pub open spec fn batches_left(remaining: Double) -> u32 {
    remaining.div_spec(Double { bits: SPREAD_GUARD_ORDER_CAP_USDT }).ceil_spec().max_spec(
        Double { bits: ONE },
    ).saturated(u32::MAX as nat) as u32
}

/// How long to wait after a number of empty attempts.
pub open spec fn backoff(attempts: u32) -> u64 {
    if attempts == 0 {
        250
    } else if attempts == 1 {
        500
    } else if attempts == 2 {
        1_000
    } else if attempts == 3 {
        2_000
    } else {
        4_000
    }
}

/// The fill of an order as one side of a pair.
pub open spec fn guard_fill(order: OrderExecution) -> GuardUnmatchedFill {
    GuardUnmatchedFill { notional_usdt: filled(order), price: order.average_price }
}

/// The order that came of a plan, where one did.
pub open spec fn executed(outcome: Option<Outcome>) -> Option<OrderExecution> {
    match outcome {
        Some(Outcome::Filled(order)) => Some(order),
        _ => None,
    }
}

/// What went wrong with an order, where something did.
pub open spec fn mishap(outcome: Option<Outcome>) -> Option<String> {
    match outcome {
        Some(Outcome::Failed(text)) => Some(text),
        _ => None,
    }
}

/// A fill that counts: one that is worth something.
pub open spec fn counts(order: Option<OrderExecution>) -> bool {
    order is Some && (Double { bits: ZERO }).lt_spec(filled(order->0))
}

/// An order whose fill is a finite amount, as far as there is one.
pub open spec fn bounded(order: Option<OrderExecution>) -> bool {
    order is Some ==> filled(order->0).finite()
}

/// The fills with one more, where an order brought one.
pub open spec fn with_fill(fills: Seq<GuardUnmatchedFill>, order: Option<OrderExecution>) -> Seq<
    GuardUnmatchedFill,
> {
    if counts(order) {
        fills.push(guard_fill(order->0))
    } else {
        fills
    }
}

/// The first error that is more than a missing counterpart.
pub open spec fn unexpected(long: Option<String>, short: Option<String>) -> Option<String> {
    if long is Some && !no_fill(long->0@) {
        long
    } else if short is Some && !no_fill(short->0@) {
        short
    } else {
        None
    }
}

/// What a task fails with once orders fail time and again.
pub open spec fn repeated_failure(attempts: u32, error: Seq<char>) -> Seq<char> {
    "IOC order failed repeatedly; no position was opened in the last "@ + digits(attempts as nat)
        + " attempts: "@ + error
}

/// What a task fails with once its legs cannot be evened out.
pub open spec fn naked_supplement(residual: Double) -> Seq<char> {
    "NAKED_EXPOSURE: immediate market supplement failed after "@ + digits(
        MAX_RECONCILIATION_ATTEMPTS as nat,
    ) + " attempts; residual mismatch "@ + fixed_text(residual, 2) + " USDT"@
}

/// Whether a task is told how its run ended.
pub open spec fn ends_as(task: BatchIncreaseTask, stage: GuardStage) -> bool {
    match stage {
        GuardStage::Completed => task.status@ == "completed"@,
        GuardStage::Cancelled => task.status@ == "cancelled"@,
        GuardStage::Failed => task.status@ == "failed"@,
        _ => true,
    }
}

impl GuardRun {
    /// Whether a run has come to an end.
    pub open spec fn over(self) -> bool {
        self.stage is Completed || self.stage is Cancelled || self.stage is Failed
    }

    /// Whether a run is past its checks, so that it may send orders.
    pub open spec fn trades(self) -> bool {
        match self.stage {
            GuardStage::Head | GuardStage::Quote | GuardStage::Orders | GuardStage::Even | GuardStage::Book => true,
            _ => false,
        }
    }

    /// Whether a batch is at hand.
    pub open spec fn in_batch(self) -> bool {
        self.stage is Orders || self.stage is Even || self.stage is Book
    }

    /// The open fills can be matched. A run trades only where its checks were
    /// passed, books a batch only where its legs are even, and is completed only
    /// with at most ten USDT open.
    pub open spec fn wf(self) -> bool {
        &&& guard_matchable(self.unmatched_long@, self.unmatched_short@)
        &&& self.attempt <= MAX_RECONCILIATION_ATTEMPTS
        &&& (Double { bits: ZERO }).le_spec(self.target()) ==> self.completed.le_spec(self.target())
        &&& self.stage is Borrowable || self.stage is Leverage || self.trades() ==> (self.free matches Some(free)
            && margin_covered(self.opportunity, self.whole, free.0, free.1))
        &&& (self.stage is Leverage || self.trades()) && borrows(self.opportunity) ==> (self.borrowable matches Some(
            most,
        ) && loan_covered(self.opportunity, self.whole, most))
        &&& self.stage is Quote || self.in_batch() ==> self.open()
        &&& self.in_batch() ==> self.quote is Some
        &&& self.stage is Book ==> !self.uneven()
        &&& self.stage is Completed ==> !self.open()
    }

    /// How much is opened in all.
    pub open spec fn target(self) -> Double {
        self.whole.notional_usdt
    }

    /// Whether another batch is due: more than ten USDT are open.
    pub open spec fn open(self) -> bool {
        (Double { bits: TEN }).lt_spec(self.target().sub_spec(self.completed))
    }

    /// The orders of a batch at its quotes.
    pub open spec fn long_quantity(self, q: Opportunity) -> Double {
        floored(self.desired().div_spec(q.long.ask), self.opportunity.long.qty_step)
    }

    pub open spec fn short_quantity(self, q: Opportunity) -> Double {
        floored(self.desired().div_spec(q.short.bid), self.opportunity.short.qty_step)
    }

    /// Whether a batch has the orders of its quotes: both at once, immediate or
    /// cancelled, at the quoted prices.
    pub open spec fn sends(self, q: Opportunity, long: Option<OrderPlan>, short: Option<OrderPlan>) -> bool {
        &&& long is Some == orderable(self.long_quantity(q))
        &&& long is Some ==> plans(long->0, q.long, "Buy"@, self.long_quantity(q), false, Some(q.long.ask))
        &&& short is Some == orderable(self.short_quantity(q))
        &&& short is Some ==> plans(short->0, q.short, "Sell"@, self.short_quantity(q), false, Some(q.short.bid))
    }

    /// Whether nothing more is tried to even out the legs: three orders were
    /// tried, or they are even.
    pub open spec fn evened(self) -> bool {
        self.attempt >= MAX_RECONCILIATION_ATTEMPTS || self.difference().le_spec(Double { bits: TEN })
    }

    /// Whether the short side is the smaller one.
    pub open spec fn short_lags(self) -> bool {
        guard_total(self.unmatched_short@).lt_spec(guard_total(self.unmatched_long@))
    }

    /// The market order for the smaller side, where one can be sent.
    pub open spec fn supplements(self, q: Opportunity, order: Option<OrderPlan>) -> bool {
        let quantity = if self.short_lags() {
            floored(self.difference().div_spec(q.short.bid), self.opportunity.short.qty_step)
        } else {
            floored(self.difference().div_spec(q.long.ask), self.opportunity.long.qty_step)
        };
        if quantity.le_spec(Double { bits: ZERO }) {
            order is None
        } else if self.short_lags() {
            order is Some && plans(order->0, q.short, "Sell"@, quantity, false, None)
        } else {
            order is Some && plans(order->0, q.long, "Buy"@, quantity, false, None)
        }
    }

    /// What is still to be opened.
    pub open spec fn remaining(self) -> Double {
        self.target().sub_spec(self.completed).max_spec(Double { bits: ZERO })
    }

    /// The size of the next batch.
    pub open spec fn desired(self) -> Double {
        order_cap(self.remaining())
    }

    /// The spread that the next batch has to reach.
    pub open spec fn effective(self) -> Double {
        self.threshold.add_spec(
            self.recovery.installment(self.desired(), batches_left(self.remaining())),
        )
    }

    /// How much the open fills of the two sides differ by.
    pub open spec fn difference(self) -> Double {
        guard_total(self.unmatched_long@).sub_spec(guard_total(self.unmatched_short@)).abs_spec()
    }

    /// Whether the legs are apart by more than is tolerated.
    pub open spec fn uneven(self) -> bool {
        (Double { bits: TEN }).lt_spec(self.difference())
    }

    /// A run that has not begun.
    pub fn new(opportunity: Opportunity, request: &BatchIncreaseRequest) -> (run: GuardRun)
        ensures
            run.wf(),
            run.opportunity == opportunity,
            run.whole == (OpenTradeRequest {
                opportunity_id: run.whole.opportunity_id,
                notional_usdt: request.target_notional_usdt,
                leverage: request.leverage,
                spread_guard: true,
                spread_threshold: request.spread_threshold,
            }),
            run.whole.opportunity_id@ == request.opportunity_id@,
            run.stage is Start,
            run.free is None,
            run.borrowable is None,
            run.threshold == (match request.spread_threshold {
                Some(threshold) => threshold,
                None => opportunity.spread,
            }),
            run.completed == (Double { bits: ZERO }),
            run.cumulative_edge_value == (Double { bits: ZERO }),
            run.recovery == SpreadRecovery::none(),
            run.batch == 0,
            run.empty_attempts == 0,
            run.quote is None,
            run.unmatched_long@ == Seq::<GuardUnmatchedFill>::empty(),
            run.unmatched_short@ == Seq::<GuardUnmatchedFill>::empty(),
            run.logs@ == Seq::<BatchExecutionLog>::empty(),
    {
        let zero = Double { bits: ZERO };
        let threshold = match request.spread_threshold {
            Some(threshold) => threshold,
            None => opportunity.spread,
        };
        GuardRun {
            opportunity,
            whole: OpenTradeRequest {
                opportunity_id: request.opportunity_id.clone(),
                notional_usdt: request.target_notional_usdt,
                leverage: request.leverage,
                spread_guard: true,
                spread_threshold: request.spread_threshold,
            },
            stage: GuardStage::Start,
            free: None,
            borrowable: None,
            threshold,
            completed: zero,
            cumulative_edge_value: zero,
            recovery: SpreadRecovery::new(),
            batch: 0,
            empty_attempts: 0,
            quote: None,
            unmatched_long: Vec::new(),
            unmatched_short: Vec::new(),
            matched: zero,
            edge_value: zero,
            attempt: 0,
            logs: Vec::new(),
        }
    }

    /// Whether another batch is due: more than ten USDT are open.
    pub fn unfinished(&self) -> (b: bool)
        ensures
            b == self.open(),
    {
        self.whole.notional_usdt.sub(self.completed).gt(Double { bits: TEN })
    }

    /// What comes next.
    pub fn next(&self) -> (action: GuardAction)
        requires
            self.wf(),
        ensures
            match self.stage {
                GuardStage::Start => action is Begin,
                GuardStage::Balances => action is FindBalances,
                GuardStage::Borrowable => action matches GuardAction::FindBorrowable { base } && base@
                    == self.opportunity.short.base@,
                GuardStage::Leverage => action == (GuardAction::SetLeverage { leverage: self.whole.leverage }),
                GuardStage::Head => if self.open() {
                    action is Look
                } else {
                    action is Conclude
                },
                GuardStage::Quote => action is FindQuote,
                GuardStage::Orders => action matches GuardAction::Send { long, short } && self.sends(
                    self.quote->0,
                    long,
                    short,
                ),
                GuardStage::Even => if self.evened() {
                    action is CheckResidual
                } else {
                    action matches GuardAction::Supplement { order } && self.supplements(self.quote->0, order)
                },
                GuardStage::Book => action is Settle,
                _ => action is Stop,
            },
    {
        match self.stage {
            GuardStage::Start => GuardAction::Begin,
            GuardStage::Balances => GuardAction::FindBalances,
            GuardStage::Borrowable => GuardAction::FindBorrowable { base: self.opportunity.short.base.clone() },
            GuardStage::Leverage => GuardAction::SetLeverage { leverage: self.whole.leverage },
            GuardStage::Head => if self.unfinished() {
                GuardAction::Look
            } else {
                GuardAction::Conclude
            },
            GuardStage::Quote => GuardAction::FindQuote,
            GuardStage::Orders => match &self.quote {
                Some(q) => self.orders(q),
                None => GuardAction::Stop,
            },
            GuardStage::Even => match &self.quote {
                Some(q) => self.supplement(q),
                None => GuardAction::Stop,
            },
            GuardStage::Book => GuardAction::Settle,
            GuardStage::Completed => GuardAction::Stop,
            GuardStage::Cancelled => GuardAction::Stop,
            GuardStage::Failed => GuardAction::Stop,
        }
    }

    /// The orders of a batch.
    fn orders(&self, q: &Opportunity) -> (action: GuardAction)
        ensures
            action matches GuardAction::Send { long, short } && self.sends(*q, long, short),
    {
        let remaining = self.whole.notional_usdt.sub(self.completed).max(Double { bits: ZERO });
        let desired = (Double { bits: SPREAD_GUARD_ORDER_CAP_USDT }).min(remaining);
        let long_quantity = floor_step(desired.div(q.long.ask), self.opportunity.long.qty_step);
        let short_quantity = floor_step(desired.div(q.short.bid), self.opportunity.short.qty_step);
        GuardAction::Send {
            long: Self::side_plan(&q.long, "Buy", long_quantity, q.long.ask),
            short: Self::side_plan(&q.short, "Sell", short_quantity, q.short.bid),
        }
    }

    /// The next order that evens out the legs: at most three are tried.
    fn supplement(&self, q: &Opportunity) -> (action: GuardAction)
        requires
            self.wf(),
        ensures
            if self.evened() {
                action is CheckResidual
            } else {
                action matches GuardAction::Supplement { order } && self.supplements(*q, order)
            },
    {
        if self.attempt >= MAX_RECONCILIATION_ATTEMPTS {
            return GuardAction::CheckResidual;
        }
        let long_excess = unmatched_total(&self.unmatched_long);
        let short_excess = unmatched_total(&self.unmatched_short);
        let difference = long_excess.sub(short_excess).abs();
        if difference.le(Double { bits: TEN }) {
            return GuardAction::CheckResidual;
        }
        let zero = Double { bits: ZERO };
        if long_excess.gt(short_excess) {
            let quantity = floor_step(difference.div(q.short.bid), self.opportunity.short.qty_step);
            if quantity.le(zero) {
                GuardAction::Supplement { order: None }
            } else {
                GuardAction::Supplement { order: Some(market_order(&q.short, "Sell", quantity, false)) }
            }
        } else {
            let quantity = floor_step(difference.div(q.long.ask), self.opportunity.long.qty_step);
            if quantity.le(zero) {
                GuardAction::Supplement { order: None }
            } else {
                GuardAction::Supplement { order: Some(market_order(&q.long, "Buy", quantity, false)) }
            }
        }
    }

    /// Begins the task.
    pub fn begin(&mut self, task: &mut BatchIncreaseTask, now: i64)
        requires
            old(self).wf(),
            old(self).stage is Start,
        ensures
            final(self).wf(),
            *final(self) == (GuardRun { stage: GuardStage::Balances, ..*old(self) }),
            restated(*final(task), *old(task), "running"@, now),
    {
        set_status(task, "running", now);
        self.stage = GuardStage::Balances;
    }

    /// Ends the task with a failure that came before any order.
    fn give_up(&mut self, task: &mut BatchIncreaseTask, failure: &Failure, now: i64)
        requires
            old(self).wf(),
        ensures
            final(self).wf(),
            *final(self) == (GuardRun { stage: GuardStage::Failed, ..*old(self) }),
            failed(*final(task), *old(task), 0, failure.chain(), now),
    {
        fail_batch_task(task, 0, failure.detail(), now);
        self.stage = GuardStage::Failed;
    }

    /// Takes in the free balances at Binance and Bybit.
    pub fn on_balances(
        &mut self,
        task: &mut BatchIncreaseTask,
        balances: Result<(Double, Double), Failure>,
        now: i64,
    ) -> (r: Result<(), Failure>)
        requires
            old(self).wf(),
            old(self).stage is Balances,
        ensures
            final(self).wf(),
            ends_as(*final(task), final(self).stage),
            balance_verdict(r, old(self).opportunity, old(self).whole, balances),
            match r {
                Ok(_) => {
                    &&& *final(task) == *old(task)
                    &&& *final(self) == (GuardRun {
                        stage: if borrows(old(self).opportunity) {
                            GuardStage::Borrowable
                        } else {
                            GuardStage::Leverage
                        },
                        free: Some(balances->Ok_0),
                        ..*old(self)
                    })
                },
                Err(f) => {
                    &&& failed(*final(task), *old(task), 0, f.chain(), now)
                    &&& *final(self) == (GuardRun { stage: GuardStage::Failed, ..*old(self) })
                },
            },
    {
        let found: Option<(Double, Double)> = match &balances {
            Ok(free) => Some(*free),
            Err(_) => None,
        };
        match preflight_balance(&self.opportunity, &self.whole, balances) {
            Ok(_) => {
                self.free = found;
                self.stage = if needs_borrow(&self.opportunity) {
                    GuardStage::Borrowable
                } else {
                    GuardStage::Leverage
                };
                Ok(())
            },
            Err(f) => {
                self.give_up(task, &f, now);
                Err(f)
            },
        }
    }

    /// Takes in how much can be borrowed.
    pub fn on_borrowable(&mut self, task: &mut BatchIncreaseTask, maximum: Result<Double, Failure>, now: i64) -> (r:
        Result<(), Failure>)
        requires
            old(self).wf(),
            old(self).stage is Borrowable,
        ensures
            final(self).wf(),
            ends_as(*final(task), final(self).stage),
            loan_verdict(r, old(self).opportunity, old(self).whole, maximum),
            match r {
                Ok(_) => {
                    &&& *final(task) == *old(task)
                    &&& *final(self) == (GuardRun {
                        stage: GuardStage::Leverage,
                        borrowable: Some(maximum->Ok_0),
                        ..*old(self)
                    })
                },
                Err(f) => {
                    &&& failed(*final(task), *old(task), 0, f.chain(), now)
                    &&& *final(self) == (GuardRun { stage: GuardStage::Failed, ..*old(self) })
                },
            },
    {
        let found: Option<Double> = match &maximum {
            Ok(most) => Some(*most),
            Err(_) => None,
        };
        match preflight_borrow(&self.opportunity, &self.whole, maximum) {
            Ok(_) => {
                self.borrowable = found;
                self.stage = GuardStage::Leverage;
                Ok(())
            },
            Err(f) => {
                self.give_up(task, &f, now);
                Err(f)
            },
        }
    }

    /// Takes in whether both legs have their leverage.
    pub fn on_leverage(&mut self, task: &mut BatchIncreaseTask, set: Result<(), Failure>, now: i64) -> (r: Result<
        (),
        Failure,
    >)
        requires
            old(self).wf(),
            old(self).stage is Leverage,
        ensures
            final(self).wf(),
            ends_as(*final(task), final(self).stage),
            match set {
                Ok(_) => {
                    &&& r is Ok
                    &&& *final(task) == *old(task)
                    &&& *final(self) == (GuardRun { stage: GuardStage::Head, ..*old(self) })
                },
                Err(f) => {
                    &&& r matches Err(e)
                    &&& e.wraps(Reason::LeverageSetup, f)
                    &&& failed(*final(task), *old(task), 0, e.chain(), now)
                    &&& *final(self) == (GuardRun { stage: GuardStage::Failed, ..*old(self) })
                },
            },
    {
        match check_leverage(set) {
            Ok(_) => {
                self.stage = GuardStage::Head;
                Ok(())
            },
            Err(f) => {
                self.give_up(task, &f, now);
                Err(f)
            },
        }
    }

    /// Ends the task where it was cancelled.
    pub fn look(&mut self, task: &mut BatchIncreaseTask, now: i64)
        requires
            old(self).wf(),
            old(self).stage is Head,
            old(self).open(),
        ensures
            final(self).wf(),
            ends_as(*final(task), final(self).stage),
            if old(task).cancel_requested {
                &&& restated(*final(task), *old(task), "cancelled"@, now)
                &&& *final(self) == (GuardRun { stage: GuardStage::Cancelled, ..*old(self) })
            } else {
                &&& *final(task) == *old(task)
                &&& *final(self) == (GuardRun { stage: GuardStage::Quote, ..*old(self) })
            },
    {
        if batch_cancelled(Some(&*task)) {
            set_status(task, "cancelled", now);
            self.stage = GuardStage::Cancelled;
        } else {
            self.stage = GuardStage::Quote;
        }
    }

    /// Ends the task that has at most ten USDT open.
    pub fn conclude(&mut self, task: &mut BatchIncreaseTask, now: i64)
        requires
            old(self).wf(),
            old(self).stage is Head,
            !old(self).open(),
        ensures
            final(self).wf(),
            ends_as(*final(task), final(self).stage),
            *final(self) == (GuardRun { stage: GuardStage::Completed, ..*old(self) }),
            restated(*final(task), *old(task), "completed"@, now),
    {
        set_status(task, "completed", now);
        self.stage = GuardStage::Completed;
    }

    /// The plan of one side of a batch.
    fn side_plan(leg: &Leg, side: &str, quantity: Double, price: Double) -> (plan: Option<OrderPlan>)
        ensures
            plan is Some == orderable(quantity),
            plan is Some ==> plans(plan->0, *leg, side@, quantity, false, Some(price)),
    {
        if quantity.gt(Double { bits: ZERO }) {
            Some(limit_order(leg, side, quantity, price, false))
        } else {
            None
        }
    }

    /// Decides about a quote, or about a quote that could not be had. The result
    /// says how long to wait, in milliseconds.
    pub fn on_quote(&mut self, task: &mut BatchIncreaseTask, quote: Option<Opportunity>, now: i64) -> (wait: u64)
        requires
            old(self).wf(),
            old(self).stage is Quote,
        ensures
            final(self).wf(),
            match quote {
                None => {
                    &&& wait == SPREAD_GUARD_POLL_MILLIS
                    &&& *final(self) == (GuardRun { stage: GuardStage::Head, ..*old(self) })
                    &&& *final(task) == waited(*old(task), None, now)
                },
                Some(q) => {
                    let seen = BatchIncreaseTask {
                        current_spread: Some(q.spread),
                        effective_spread_threshold: Some(old(self).effective()),
                        updated_at: now,
                        ..*old(task)
                    };
                    if open_allowed(q.spread, old(self).effective()) && !(old(self).long_quantity(q).le_spec(
                        Double { bits: ZERO },
                    ) && old(self).short_quantity(q).le_spec(Double { bits: ZERO })) {
                        &&& wait == 0
                        &&& *final(self) == (GuardRun {
                            stage: GuardStage::Orders,
                            quote,
                            batch: bumped(old(self).batch),
                            ..*old(self)
                        })
                        &&& *final(task) == seen
                    } else {
                        &&& wait == SPREAD_GUARD_POLL_MILLIS
                        &&& *final(self) == (GuardRun { stage: GuardStage::Head, ..*old(self) })
                        &&& *final(task) == waited(seen, Some(q.spread), now)
                    }
                },
            },
    {
        let q = match quote {
            Some(q) => q,
            None => {
                record_spread_wait(task, None, now);
                self.stage = GuardStage::Head;
                return SPREAD_GUARD_POLL_MILLIS;
            },
        };
        let remaining = self.whole.notional_usdt.sub(self.completed).max(Double { bits: ZERO });
        let cap = Double { bits: SPREAD_GUARD_ORDER_CAP_USDT };
        let desired = cap.min(remaining);
        let available: u32 = remaining.div(cap).ceil().max(Double { bits: ONE }).to_unsigned(u32::MAX);
        let effective = self.recovery.open_threshold(self.threshold, desired, available);
        task.current_spread = Some(q.spread);
        task.effective_spread_threshold = Some(effective);
        task.updated_at = now;
        if !spread_guard_allows(q.spread, effective) {
            record_spread_wait(task, Some(q.spread), now);
            self.stage = GuardStage::Head;
            return SPREAD_GUARD_POLL_MILLIS;
        }
        let zero = Double { bits: ZERO };
        let long_quantity = floor_step(desired.div(q.long.ask), self.opportunity.long.qty_step);
        let short_quantity = floor_step(desired.div(q.short.bid), self.opportunity.short.qty_step);
        if long_quantity.le(zero) && short_quantity.le(zero) {
            record_spread_wait(task, Some(q.spread), now);
            self.stage = GuardStage::Head;
            return SPREAD_GUARD_POLL_MILLIS;
        }
        self.batch = bump(self.batch);
        self.quote = Some(q);
        self.stage = GuardStage::Orders;
        0
    }

    /// Takes in what came of the orders of a batch. Where nothing was filled time
    /// and again, the task has failed. The result says how long to wait, in
    /// milliseconds.
    pub fn on_orders(
        &mut self,
        task: &mut BatchIncreaseTask,
        long: Option<Outcome>,
        short: Option<Outcome>,
        now: i64,
    ) -> (wait: u64)
        requires
            old(self).wf(),
            old(self).stage is Orders,
            bounded(executed(long)),
            bounded(executed(short)),
        ensures
            final(self).wf(),
            ends_as(*final(task), final(self).stage),
            if executed(long) is None && executed(short) is None {
                let attempts = if old(self).empty_attempts < u32::MAX {
                    (old(self).empty_attempts + 1) as u32
                } else {
                    u32::MAX
                };
                let trouble = unexpected(mishap(long), mishap(short));
                let spread = old(self).quote->0.spread;
                if attempts >= 3 && trouble is Some {
                    &&& wait == 0
                    &&& *final(self) == (GuardRun {
                        stage: GuardStage::Failed,
                        empty_attempts: attempts,
                        ..*old(self)
                    })
                    &&& failed(
                        *final(task),
                        waited(*old(task), Some(spread), now),
                        old(self).batch,
                        repeated_failure(attempts, trouble->0@),
                        now,
                    )
                } else {
                    &&& wait == backoff(attempts)
                    &&& *final(self) == (GuardRun {
                        stage: GuardStage::Head,
                        empty_attempts: attempts,
                        ..*old(self)
                    })
                    &&& *final(task) == waited(*old(task), Some(spread), now)
                }
            } else {
                let m = matched_guard(
                    with_fill(old(self).unmatched_long@, executed(long)),
                    with_fill(old(self).unmatched_short@, executed(short)),
                    Double { bits: ZERO },
                    Double { bits: ZERO },
                );
                &&& wait == 0
                &&& *final(task) == *old(task)
                &&& *final(self) == (GuardRun {
                    stage: GuardStage::Even,
                    empty_attempts: 0,
                    unmatched_long: final(self).unmatched_long,
                    unmatched_short: final(self).unmatched_short,
                    matched: m.matched,
                    edge_value: m.edge,
                    attempt: 0,
                    logs: final(self).logs,
                    ..*old(self)
                })
                &&& final(self).unmatched_long@ == m.long
                &&& final(self).unmatched_short@ == m.short
                &&& final(self).logs@.len() == (if counts(executed(long)) {
                    1nat
                } else {
                    0nat
                }) + (if counts(executed(short)) {
                    1nat
                } else {
                    0nat
                })
                &&& counts(executed(long)) ==> is_fill_log(
                    final(self).logs@[0],
                    old(self).opportunity.token.symbol@,
                    old(self).batch,
                    "long"@,
                    executed(long)->0,
                    guard_message(false),
                    now,
                )
                &&& counts(executed(short)) ==> is_fill_log(
                    final(self).logs@.last(),
                    old(self).opportunity.token.symbol@,
                    old(self).batch,
                    "short"@,
                    executed(short)->0,
                    guard_message(false),
                    now,
                )
            },
    {
        let long_order = match &long {
            Some(Outcome::Filled(order)) => Some(order),
            _ => None,
        };
        let short_order = match &short {
            Some(Outcome::Filled(order)) => Some(order),
            _ => None,
        };
        if long_order.is_none() && short_order.is_none() {
            let attempts: u32 = if self.empty_attempts < u32::MAX {
                self.empty_attempts + 1
            } else {
                self.empty_attempts
            };
            self.empty_attempts = attempts;
            let spread = match &self.quote {
                Some(q) => q.spread,
                None => Double { bits: ZERO },
            };
            record_spread_wait(task, Some(spread), now);
            if attempts >= 3 {
                let trouble = match &long {
                    Some(Outcome::Failed(text)) => if !is_ioc_no_fill(text.as_str()) {
                        Some(text)
                    } else {
                        None
                    },
                    _ => None,
                };
                let trouble = match trouble {
                    Some(text) => Some(text),
                    None => match &short {
                        Some(Outcome::Failed(text)) => if !is_ioc_no_fill(text.as_str()) {
                            Some(text)
                        } else {
                            None
                        },
                        _ => None,
                    },
                };
                if let Some(error) = trouble {
                    let mut message =
                        "IOC order failed repeatedly; no position was opened in the last ".to_owned();
                    message.append(digits_text(attempts as u128).as_str());
                    message.append(" attempts: ");
                    message.append(error.as_str());
                    fail_batch_task(task, self.batch, message, now);
                    self.stage = GuardStage::Failed;
                    return 0;
                }
            }
            let millis: u64 = if attempts == 0 {
                250
            } else if attempts == 1 {
                500
            } else if attempts == 2 {
                1_000
            } else if attempts == 3 {
                2_000
            } else {
                4_000
            };
            self.stage = GuardStage::Head;
            return millis;
        }
        self.empty_attempts = 0;
        let mut logs: Vec<BatchExecutionLog> = Vec::new();
        if let Some(order) = long_order {
            let notional = filled_notional(order);
            if notional.gt(Double { bits: ZERO }) {
                self.unmatched_long.push(
                    GuardUnmatchedFill { notional_usdt: notional, price: order.average_price },
                );
                logs.push(
                    guard_batch_log(self.opportunity.token.symbol.as_str(), self.batch, "long", order, false, now),
                );
            }
        }
        if let Some(order) = short_order {
            let notional = filled_notional(order);
            if notional.gt(Double { bits: ZERO }) {
                self.unmatched_short.push(
                    GuardUnmatchedFill { notional_usdt: notional, price: order.average_price },
                );
                logs.push(
                    guard_batch_log(self.opportunity.token.symbol.as_str(), self.batch, "short", order, false, now),
                );
            }
        }
        let (matched, edge_value) = match_guard_fills_with_edge(
            &mut self.unmatched_long,
            &mut self.unmatched_short,
        );
        self.matched = matched;
        self.edge_value = edge_value;
        self.attempt = 0;
        self.logs = logs;
        self.stage = GuardStage::Even;
        0
    }

    /// Takes in what came of the attempt to even out the legs: an order for the
    /// smaller side, or nothing.
    pub fn on_supplement(&mut self, order: Option<OrderExecution>, now: i64)
        requires
            old(self).wf(),
            old(self).stage is Even,
            !old(self).evened(),
            bounded(order),
        ensures
            final(self).wf(),
            match order {
                None => *final(self) == (GuardRun { attempt: (old(self).attempt + 1) as u8, ..*old(self) }),
                Some(o) => {
                    let long_side = !old(self).short_lags();
                    let m = matched_guard(
                        if long_side {
                            old(self).unmatched_long@.push(guard_fill(o))
                        } else {
                            old(self).unmatched_long@
                        },
                        if long_side {
                            old(self).unmatched_short@
                        } else {
                            old(self).unmatched_short@.push(guard_fill(o))
                        },
                        Double { bits: ZERO },
                        Double { bits: ZERO },
                    );
                    &&& adds(final(self).matched, old(self).matched, m.matched)
                    &&& adds(final(self).edge_value, old(self).edge_value, m.edge)
                    &&& *final(self) == (GuardRun {
                        attempt: (old(self).attempt + 1) as u8,
                        unmatched_long: final(self).unmatched_long,
                        unmatched_short: final(self).unmatched_short,
                        matched: old(self).matched.add_spec(m.matched),
                        edge_value: old(self).edge_value.add_spec(m.edge),
                        logs: final(self).logs,
                        ..*old(self)
                    })
                    &&& final(self).unmatched_long@ == m.long
                    &&& final(self).unmatched_short@ == m.short
                    &&& final(self).logs@.drop_last() == old(self).logs@
                    &&& final(self).logs@.len() == old(self).logs@.len() + 1
                    &&& is_fill_log(
                        final(self).logs@.last(),
                        old(self).opportunity.token.symbol@,
                        old(self).batch,
                        if long_side {
                            "long"@
                        } else {
                            "short"@
                        },
                        o,
                        "单腿差额立即市价补齐"@,
                        now,
                    )
                },
            },
    {
        let long_side: bool = !unmatched_total(&self.unmatched_long).gt(unmatched_total(&self.unmatched_short));
        self.attempt = self.attempt + 1;
        let order = match order {
            Some(order) => order,
            None => return,
        };
        let fill = GuardUnmatchedFill {
            notional_usdt: filled_notional(&order),
            price: order.average_price,
        };
        let side = if long_side {
            self.unmatched_long.push(fill);
            "long"
        } else {
            self.unmatched_short.push(fill);
            "short"
        };
        let line = guard_market_supplement_log(
            self.opportunity.token.symbol.as_str(),
            self.batch,
            side,
            &order,
            now,
        );
        let ghost before = self.logs@;
        self.logs.push(line);
        proof {
            assert(self.logs@.drop_last() =~= before);
        }
        let (matched, edge_value) = match_guard_fills_with_edge(
            &mut self.unmatched_long,
            &mut self.unmatched_short,
        );
        proof {
            lemma_adds(self.matched, matched);
            lemma_adds(self.edge_value, edge_value);
        }
        self.matched = self.matched.add(matched);
        self.edge_value = self.edge_value.add(edge_value);
    }

    /// Gives the task up where the legs are still apart.
    pub fn check_residual(&mut self, task: &mut BatchIncreaseTask, now: i64)
        requires
            old(self).wf(),
            old(self).stage is Even,
            old(self).evened(),
        ensures
            final(self).wf(),
            ends_as(*final(task), final(self).stage),
            if old(self).uneven() {
                &&& *final(self) == (GuardRun { stage: GuardStage::Failed, ..*old(self) })
                &&& failed(
                    *final(task),
                    *old(task),
                    old(self).batch,
                    naked_supplement(old(self).difference()),
                    now,
                )
            } else {
                &&& *final(self) == (GuardRun { stage: GuardStage::Book, ..*old(self) })
                &&& *final(task) == *old(task)
            },
    {
        let residual = unmatched_total(&self.unmatched_long).sub(
            unmatched_total(&self.unmatched_short),
        ).abs();
        if residual.gt(Double { bits: TEN }) {
            let mut message = "NAKED_EXPOSURE: immediate market supplement failed after ".to_owned();
            message.append(digits_text(MAX_RECONCILIATION_ATTEMPTS as u128).as_str());
            message.append(" attempts; residual mismatch ");
            message.append(fixed(residual, 2).as_str());
            message.append(" USDT");
            fail_batch_task(task, self.batch, message, now);
            self.stage = GuardStage::Failed;
        } else {
            self.stage = GuardStage::Book;
        }
    }

    /// Books a batch whose legs are even. The result says how long to wait, in
    /// milliseconds: that is so where nothing was matched.
    pub fn settle(&mut self, task: &mut BatchIncreaseTask, current_position: Option<Position>, now: i64) -> (wait:
        u64)
        requires
            old(self).wf(),
            old(self).stage is Book,
            !old(self).uneven(),
        ensures
            final(self).wf(),
            ({
                let completed = old(self).completed.add_spec(old(self).matched).min_spec(old(self).target());
                let edge = old(self).cumulative_edge_value.add_spec(old(self).edge_value);
                &&& *final(self) == (GuardRun {
                    stage: GuardStage::Head,
                    completed,
                    cumulative_edge_value: edge,
                    recovery: old(self).recovery.after_open(old(self).threshold, completed, edge),
                    logs: final(self).logs,
                    ..*old(self)
                })
                &&& final(self).logs@ == Seq::<BatchExecutionLog>::empty()
                &&& *final(task) == (BatchIncreaseTask {
                    completed_notional_usdt: completed,
                    completed_batches: old(self).batch,
                    current_position,
                    cumulative_filled_spread: if (Double { bits: EPSILON }).lt_spec(completed) {
                        Some(edge.div_spec(completed))
                    } else {
                        None
                    },
                    logs: final(task).logs,
                    updated_at: now,
                    ..*old(task)
                })
                &&& final(task).logs@ == appended(old(task).logs@, old(self).logs@)
                &&& wait == (if old(self).matched.le_spec(Double { bits: EPSILON }) {
                    SPREAD_GUARD_POLL_MILLIS
                } else {
                    0
                })
            }),
            grows_up_to(
                final(self).completed,
                old(self).completed,
                old(self).matched,
                old(self).whole.notional_usdt,
            ),
            adds(final(self).cumulative_edge_value, old(self).cumulative_edge_value, old(self).edge_value),
            is_short_by(
                final(self).recovery.debt_usdt,
                final(self).threshold,
                final(self).completed,
                final(self).cumulative_edge_value,
            ),
            final(task).cumulative_filled_spread matches Some(spread) ==> is_share(
                spread,
                final(self).cumulative_edge_value,
                final(self).completed,
            ),
    {
        proof {
            lemma_grows_up_to(self.completed, self.matched, self.whole.notional_usdt);
            lemma_adds(self.cumulative_edge_value, self.edge_value);
            let completed = self.completed.add_spec(self.matched).min_spec(self.whole.notional_usdt);
            let edge = self.cumulative_edge_value.add_spec(self.edge_value);
            lemma_recoveries_are_owed(self.recovery, self.threshold, completed, edge);
            lemma_is_share(edge, completed);
        }
        self.stage = GuardStage::Head;
        self.completed = self.completed.add(self.matched).min(self.whole.notional_usdt);
        self.cumulative_edge_value = self.cumulative_edge_value.add(self.edge_value);
        self.recovery.record_open_cumulative(self.threshold, self.completed, self.cumulative_edge_value);
        task.completed_notional_usdt = self.completed;
        task.completed_batches = self.batch;
        task.current_position = current_position;
        task.cumulative_filled_spread = if self.completed.gt(Double { bits: EPSILON }) {
            Some(self.cumulative_edge_value.div(self.completed))
        } else {
            None
        };
        let mut lines: Vec<BatchExecutionLog> = Vec::new();
        lines.append(&mut self.logs);
        proof {
            assert(lines@ =~= old(self).logs@);
        }
        append_logs(&mut task.logs, lines);
        task.updated_at = now;
        if self.matched.le(Double { bits: EPSILON }) {
            SPREAD_GUARD_POLL_MILLIS
        } else {
            0
        }
    }
}

/// A guarded opening is completed only with at most ten USDT open, has never
/// opened more than its target, and sends orders only after its checks.
pub proof fn lemma_completed_is_done(run: GuardRun)
    requires
        run.wf(),
    ensures
        run.stage is Completed ==> !(Double { bits: TEN }).lt_spec(run.target().sub_spec(run.completed)),
        (Double { bits: ZERO }).le_spec(run.target()) ==> run.completed.le_spec(run.target()),
        run.stage is Orders ==> (run.free matches Some(free) && margin_covered(
            run.opportunity,
            run.whole,
            free.0,
            free.1,
        )),
        run.stage is Book ==> !run.uneven(),
{
}

} // verus!
