//! Closing a position in small limit orders without a loss on the whole.

use crate::failure::{Failure, Reason};
use crate::models::{BatchExecutionLog, BatchIncreaseTask, Leg, OrderExecution, Position};
use crate::num::constants::{EPSILON, ONE, TEN, THOUSANDTH, ZERO};
use crate::num::decimal::{fixed, fixed_text};
use crate::num::Double;
use crate::text::{digits, digits_text};
use crate::trading::amounts::{
    close_allowed, close_spread_guard_allows, floor_step, floored, no_loss_next_batch_allowed, without_loss,
};
use crate::trading::fills::{
    close_matchable, close_total, close_unmatched_total, match_close_fills, matched_close,
    CloseUnmatchedFill,
};
use crate::trading::guard::{
    batches_left, bounded, counts, order_cap, orderable, MAX_RECONCILIATION_ATTEMPTS, SPREAD_GUARD_ORDER_CAP_USDT,
    SPREAD_GUARD_POLL_MILLIS,
};
use crate::trading::live::{leg_metadata, plain};
use crate::trading::logs::{
    append_logs, appended, bump, bumped, filled, filled_notional, is_fill_log, no_loss_batch_log,
    no_loss_market_supplement_log, no_loss_message,
};
use crate::trading::plan::{limit_order, market_order, metadata_of, plans, OrderPlan};
use crate::trading::recovery::SpreadRecovery;
use crate::trading::rules::{find_position, position_at};
use crate::trading::tasks::{
    batch_cancelled, fail_batch_task, failed, record_spread_wait, restated, set_status, waited,
};
use crate::trading::books::{
    adds, grows_up_to, is_over_by, is_share, lemma_adds, lemma_grows_up_to, lemma_is_share, lemma_recoveries_are_owed,
};
use vstd::prelude::*;
use vstd::string::StringExecFns;

verus! {

/// Where a close that must not lose stands.
#[derive(Clone, Copy, Debug, PartialEq, Eq, Structural)]
pub enum NoLossStage {
    /// Between two batches.
    Head,
    /// The quotes of the next batch.
    Quote,
    /// Sending the orders of a batch.
    Orders,
    /// Evening out the legs of a batch.
    Even,
    /// Booking a batch whose legs are even.
    Book,
    Completed,
    Cancelled,
    Failed,
}

/// What a close that must not lose asks for next.
#[derive(Debug)]
pub enum NoLossAction {
    /// Look whether the task was cancelled.
    Look,
    /// Find the bid of the long leg and the ask of the short leg.
    FindQuotes,
    /// Send the given orders at once.
    Send { long: Option<OrderPlan>, short: Option<OrderPlan> },
    /// Send this market order for the side that has closed less, where one can
    /// be sent.
    Supplement { order: Option<OrderPlan> },
    /// Find the positions that are left, and check what the legs are apart by.
    FindPositions,
    /// Check what the legs are apart by in the end.
    CheckResidual,
    /// Find the position and book the batch.
    Settle,
    /// End the task.
    Conclude,
    /// The task has ended.
    Stop,
}

/// The run of a close that must not lose: the position, what is agreed, what is
/// done, and the batch at hand.
pub struct NoLossRun {
    pub position: Position,
    pub long_leg: Leg,
    pub short_leg: Leg,
    pub stage: NoLossStage,
    pub target: Double,
    pub close_all: bool,
    pub close_spread_threshold: Option<Double>,
    pub completed: Double,
    pub realized_pnl: Double,
    pub cumulative_spread_value: Double,
    pub recovery: SpreadRecovery,
    pub batch: usize,
    /// The bid of the long leg and the ask of the short leg for the batch at
    /// hand.
    pub quotes: Option<(Double, Double)>,
    pub unmatched_long: Vec<CloseUnmatchedFill>,
    pub unmatched_short: Vec<CloseUnmatchedFill>,
    pub matched: Double,
    pub matched_pnl: Double,
    pub matched_spread_value: Double,
    pub attempt: u8,
    /// Whether the whole position was seen to be gone.
    pub gone: bool,
    pub logs: Vec<BatchExecutionLog>,
}

/// Whether a task is told how its run ended.
pub open spec fn ends_as(task: BatchIncreaseTask, stage: NoLossStage) -> bool {
    match stage {
        NoLossStage::Completed => task.status@ == "completed"@,
        NoLossStage::Cancelled => task.status@ == "cancelled"@,
        NoLossStage::Failed => task.status@ == "failed"@,
        _ => true,
    }
}

/// Whether a position is known to be gone: the positions that are left could be
/// had, and it is none of them.
pub open spec fn known_gone(positions: Option<Seq<Position>>, id: Seq<char>) -> bool {
    positions is Some && position_at(positions->0, id) is None
}

/// The profit on a closed long leg, relative to its price.
pub open spec fn long_ratio(price: Double, entry: Double) -> Double {
    price.sub_spec(entry).div_spec(price)
}

/// The profit on a closed short leg, relative to its price.
pub open spec fn short_ratio(price: Double, entry: Double) -> Double {
    entry.sub_spec(price).div_spec(price)
}

/// The spread at which a position can be closed.
pub open spec fn close_spread(long_bid: Double, short_ask: Double) -> Double {
    short_ask.sub_spec(long_bid).div_spec(long_bid.max_spec(Double { bits: EPSILON }))
}

/// What a task fails with once its legs cannot be evened out.
pub open spec fn naked_close_supplement(residual: Double) -> Seq<char> {
    "NAKED_EXPOSURE: immediate market close supplement failed after "@ + digits(
        MAX_RECONCILIATION_ATTEMPTS as nat,
    ) + " attempts; residual mismatch "@ + fixed_text(residual, 2) + " USDT"@
}

/// A capped order is a finite amount.
pub proof fn lemma_order_cap_finite(x: Double)
    ensures
        order_cap(x.max_spec(Double { bits: ZERO })).finite(),
{
}

impl NoLossRun {
    /// The open fills can be matched. A run sends the orders of a batch only
    /// where they bring no loss on the whole, books a batch only where its legs
    /// are even, and is completed only where nothing more is open or the whole
    /// position is gone.
    pub open spec fn wf(self) -> bool {
        &&& close_matchable(self.unmatched_long@, self.unmatched_short@)
        &&& self.attempt <= MAX_RECONCILIATION_ATTEMPTS
        &&& (Double { bits: ZERO }).le_spec(self.target) ==> self.completed.le_spec(self.target)
        &&& self.stage is Quote || self.in_batch() ==> self.open()
        &&& self.in_batch() ==> self.quotes is Some && self.close_spread_threshold is Some
        &&& self.stage is Orders ==> without_loss(self.realized_pnl, self.projected_now())
        &&& self.stage is Book ==> !self.uneven()
        &&& self.stage is Completed ==> !self.open() || (self.close_all && self.gone)
    }

    /// The profit that the batch at hand would bring at its quotes.
    pub open spec fn projected_now(self) -> Double {
        let (bid, ask) = self.quotes->0;
        self.projected(bid, ask)
    }

    /// Whether a batch is at hand.
    pub open spec fn in_batch(self) -> bool {
        self.stage is Orders || self.stage is Even || self.stage is Book
    }

    /// Whether another batch is due: a full close goes on to the end, a partial
    /// one until ten USDT are open.
    pub open spec fn open(self) -> bool {
        (if self.close_all {
            Double { bits: THOUSANDTH }
        } else {
            Double { bits: TEN }
        }).lt_spec(self.target.sub_spec(self.completed))
    }

    /// Whether the legs are apart by more than is tolerated.
    pub open spec fn uneven(self) -> bool {
        (Double { bits: TEN }).lt_spec(self.difference())
    }

    /// Whether nothing more is tried to even out the legs: three orders were
    /// tried, or they are even.
    pub open spec fn evened(self) -> bool {
        self.attempt >= MAX_RECONCILIATION_ATTEMPTS || self.difference().le_spec(Double { bits: TEN })
    }

    /// Whether the short side has closed less.
    pub open spec fn short_lags(self) -> bool {
        close_total(self.unmatched_short@).lt_spec(close_total(self.unmatched_long@))
    }

    /// Whether a batch has the orders of its quotes: both at once, reduce-only,
    /// immediate or cancelled, at the quoted prices.
    pub open spec fn sends(self, long: Option<OrderPlan>, short: Option<OrderPlan>) -> bool {
        let (bid, ask) = self.quotes->0;
        &&& long is Some == orderable(self.long_quantity(bid))
        &&& long is Some ==> plans(long->0, self.long_leg, "Sell"@, self.long_quantity(bid), true, Some(bid))
        &&& short is Some == orderable(self.short_quantity(ask))
        &&& short is Some ==> plans(short->0, self.short_leg, "Buy"@, self.short_quantity(ask), true, Some(ask))
    }

    /// The reduce-only market order for the side that has closed less, where one
    /// can be sent.
    pub open spec fn supplements(self, order: Option<OrderPlan>) -> bool {
        let (bid, ask) = self.quotes->0;
        let quantity = if self.short_lags() {
            floored(self.difference().div_spec(ask), self.short_leg.qty_step)
        } else {
            floored(self.difference().div_spec(bid), self.long_leg.qty_step)
        };
        if quantity.le_spec(Double { bits: ZERO }) {
            order is None
        } else if self.short_lags() {
            order is Some && plans(order->0, self.short_leg, "Buy"@, quantity, true, None)
        } else {
            order is Some && plans(order->0, self.long_leg, "Sell"@, quantity, true, None)
        }
    }

    pub open spec fn remaining(self) -> Double {
        self.target.sub_spec(self.completed).max_spec(Double { bits: ZERO })
    }

    pub open spec fn desired(self) -> Double {
        order_cap(self.remaining())
    }

    /// The agreed spread: the one of the first quote where none was agreed.
    pub open spec fn agreed(self, current: Double) -> Double {
        match self.close_spread_threshold {
            Some(threshold) => threshold,
            None => current,
        }
    }

    /// The spread that the next batch must not exceed.
    pub open spec fn effective(self, agreed: Double) -> Double {
        agreed.sub_spec(self.recovery.installment(self.desired(), batches_left(self.remaining())))
    }

    /// The closing fill of the long leg.
    pub open spec fn long_fill(self, order: OrderExecution) -> CloseUnmatchedFill {
        CloseUnmatchedFill {
            notional_usdt: filled(order),
            pnl_ratio: long_ratio(order.average_price, self.position.long.entry_price),
            price: order.average_price,
        }
    }

    /// The closing fill of the short leg.
    pub open spec fn short_fill(self, order: OrderExecution) -> CloseUnmatchedFill {
        CloseUnmatchedFill {
            notional_usdt: filled(order),
            pnl_ratio: short_ratio(order.average_price, self.position.short.entry_price),
            price: order.average_price,
        }
    }

    /// The profit that the next batch would bring at the given quotes.
    pub open spec fn projected(self, long_bid: Double, short_ask: Double) -> Double {
        let epsilon = Double { bits: EPSILON };
        let zero = Double { bits: ZERO };
        let long = CloseUnmatchedFill {
            notional_usdt: self.desired(),
            pnl_ratio: long_bid.sub_spec(self.position.long.entry_price).div_spec(
                long_bid.max_spec(epsilon),
            ),
            price: long_bid,
        };
        let short = CloseUnmatchedFill {
            notional_usdt: self.desired(),
            pnl_ratio: self.position.short.entry_price.sub_spec(short_ask).div_spec(
                short_ask.max_spec(epsilon),
            ),
            price: short_ask,
        };
        if zero.lt_spec(self.desired()) {
            matched_close(
                self.unmatched_long@.push(long),
                self.unmatched_short@.push(short),
                zero,
                zero,
                zero,
            ).pnl
        } else {
            matched_close(self.unmatched_long@, self.unmatched_short@, zero, zero, zero).pnl
        }
    }

    pub open spec fn long_quantity(self, long_bid: Double) -> Double {
        floored(self.desired().div_spec(long_bid), self.long_leg.qty_step).min_spec(
            self.position.long.quantity,
        )
    }

    pub open spec fn short_quantity(self, short_ask: Double) -> Double {
        floored(self.desired().div_spec(short_ask), self.short_leg.qty_step).min_spec(
            self.position.short.quantity,
        )
    }

    pub open spec fn difference(self) -> Double {
        close_total(self.unmatched_long@).sub_spec(close_total(self.unmatched_short@)).abs_spec()
    }

    /// A run that has not begun, on the markets of its two legs.
    pub open spec fn fresh(
        self,
        position: Position,
        legs: Seq<Leg>,
        target: Double,
        close_all: bool,
        close_spread_threshold: Option<Double>,
    ) -> bool {
        let long = metadata_of(legs, position.long.exchange@, position.long.market@, position.long.symbol@);
        let short = metadata_of(legs, position.short.exchange@, position.short.market@, position.short.symbol@);
        &&& self.position == position
        &&& long is Some && self.long_leg.copies(legs[long->0])
        &&& short is Some && self.short_leg.copies(legs[short->0])
        &&& self.stage is Head
        &&& self.target == target
        &&& self.close_all == close_all
        &&& self.close_spread_threshold == close_spread_threshold
        &&& self.completed == (Double { bits: ZERO })
        &&& self.realized_pnl == (Double { bits: ZERO })
        &&& self.cumulative_spread_value == (Double { bits: ZERO })
        &&& self.recovery == SpreadRecovery::none()
        &&& self.batch == 0
        &&& self.quotes is None
        &&& !self.gone
        &&& self.unmatched_long@ == Seq::<CloseUnmatchedFill>::empty()
        &&& self.unmatched_short@ == Seq::<CloseUnmatchedFill>::empty()
        &&& self.logs@ == Seq::<BatchExecutionLog>::empty()
    }

    /// Starts a run with the markets that can be traded. The task has failed
    /// where they could not be had, or do not hold both legs.
    pub fn start(
        task: &mut BatchIncreaseTask,
        position: Position,
        markets: Result<Vec<Leg>, Failure>,
        target: Double,
        close_all: bool,
        close_spread_threshold: Option<Double>,
        now: i64,
    ) -> (r: Result<NoLossRun, Failure>)
        ensures
            match markets {
                Err(f) => r == Err::<NoLossRun, Failure>(f),
                Ok(legs) => {
                    let long = metadata_of(
                        legs@,
                        position.long.exchange@,
                        position.long.market@,
                        position.long.symbol@,
                    );
                    let short = metadata_of(
                        legs@,
                        position.short.exchange@,
                        position.short.market@,
                        position.short.symbol@,
                    );
                    if long is None {
                        r matches Err(f) && f == plain(Reason::LongMetadata)
                    } else if short is None {
                        r matches Err(f) && f == plain(Reason::ShortMetadata)
                    } else {
                        r matches Ok(run) && run.wf() && run.fresh(
                            position,
                            legs@,
                            target,
                            close_all,
                            close_spread_threshold,
                        )
                    }
                },
            },
            match r {
                Ok(_) => *final(task) == *old(task),
                Err(f) => failed(*final(task), *old(task), 0, f.chain(), now),
            },
    {
        let found = match markets {
            Ok(legs) => leg_metadata(&legs, &position),
            Err(f) => Err(f),
        };
        let (long_leg, short_leg) = match found {
            Ok(pair) => pair,
            Err(f) => {
                fail_batch_task(task, 0, f.detail(), now);
                return Err(f);
            },
        };
        let zero = Double { bits: ZERO };
        Ok(
            NoLossRun {
                position,
                long_leg,
                short_leg,
                stage: NoLossStage::Head,
                target,
                close_all,
                close_spread_threshold,
                completed: zero,
                realized_pnl: zero,
                cumulative_spread_value: zero,
                recovery: SpreadRecovery::new(),
                batch: 0,
                quotes: None,
                unmatched_long: Vec::new(),
                unmatched_short: Vec::new(),
                matched: zero,
                matched_pnl: zero,
                matched_spread_value: zero,
                attempt: 0,
                gone: false,
                logs: Vec::new(),
            },
        )
    }

    /// Whether another batch is due: a full close goes on to the end, a partial
    /// one until ten USDT are open.
    pub fn unfinished(&self) -> (b: bool)
        ensures
            b == self.open(),
    {
        let tolerance = if self.close_all {
            Double { bits: THOUSANDTH }
        } else {
            Double { bits: TEN }
        };
        self.target.sub(self.completed).gt(tolerance)
    }

    /// What comes next.
    pub fn next(&self) -> (action: NoLossAction)
        requires
            self.wf(),
        ensures
            match self.stage {
                NoLossStage::Head => if self.open() {
                    action is Look
                } else {
                    action is Conclude
                },
                NoLossStage::Quote => action is FindQuotes,
                NoLossStage::Orders => action matches NoLossAction::Send { long, short } && self.sends(long, short),
                NoLossStage::Even => if !self.evened() {
                    action matches NoLossAction::Supplement { order } && self.supplements(order)
                } else if self.uneven() && self.close_all {
                    action is FindPositions
                } else {
                    action is CheckResidual
                },
                NoLossStage::Book => action is Settle,
                _ => action is Stop,
            },
    {
        match self.stage {
            NoLossStage::Head => if self.unfinished() {
                NoLossAction::Look
            } else {
                NoLossAction::Conclude
            },
            NoLossStage::Quote => NoLossAction::FindQuotes,
            NoLossStage::Orders => match self.quotes {
                Some((bid, ask)) => self.orders(bid, ask),
                None => NoLossAction::Stop,
            },
            NoLossStage::Even => match self.quotes {
                Some((bid, ask)) => self.supplement(bid, ask),
                None => NoLossAction::Stop,
            },
            NoLossStage::Book => NoLossAction::Settle,
            NoLossStage::Completed => NoLossAction::Stop,
            NoLossStage::Cancelled => NoLossAction::Stop,
            NoLossStage::Failed => NoLossAction::Stop,
        }
    }

    /// The orders of a batch.
    fn orders(&self, bid: Double, ask: Double) -> (action: NoLossAction)
        requires
            self.quotes == Some((bid, ask)),
        ensures
            action matches NoLossAction::Send { long, short } && self.sends(long, short),
    {
        let remaining = self.target.sub(self.completed).max(Double { bits: ZERO });
        let desired = (Double { bits: SPREAD_GUARD_ORDER_CAP_USDT }).min(remaining);
        let long_quantity = floor_step(desired.div(bid), self.long_leg.qty_step).min(self.position.long.quantity);
        let short_quantity = floor_step(desired.div(ask), self.short_leg.qty_step).min(
            self.position.short.quantity,
        );
        NoLossAction::Send {
            long: Self::side_plan(&self.long_leg, "Sell", long_quantity, bid),
            short: Self::side_plan(&self.short_leg, "Buy", short_quantity, ask),
        }
    }

    /// The next order that evens out the legs: at most three are tried.
    fn supplement(&self, bid: Double, ask: Double) -> (action: NoLossAction)
        requires
            self.quotes == Some((bid, ask)),
        ensures
            if !self.evened() {
                action matches NoLossAction::Supplement { order } && self.supplements(order)
            } else if self.uneven() && self.close_all {
                action is FindPositions
            } else {
                action is CheckResidual
            },
    {
        let long_excess = close_unmatched_total(&self.unmatched_long);
        let short_excess = close_unmatched_total(&self.unmatched_short);
        let difference = long_excess.sub(short_excess).abs();
        if self.attempt >= MAX_RECONCILIATION_ATTEMPTS || difference.le(Double { bits: TEN }) {
            return if difference.gt(Double { bits: TEN }) && self.close_all {
                NoLossAction::FindPositions
            } else {
                NoLossAction::CheckResidual
            };
        }
        let zero = Double { bits: ZERO };
        if long_excess.gt(short_excess) {
            let quantity = floor_step(difference.div(ask), self.short_leg.qty_step);
            if quantity.le(zero) {
                NoLossAction::Supplement { order: None }
            } else {
                NoLossAction::Supplement { order: Some(market_order(&self.short_leg, "Buy", quantity, true)) }
            }
        } else {
            let quantity = floor_step(difference.div(bid), self.long_leg.qty_step);
            if quantity.le(zero) {
                NoLossAction::Supplement { order: None }
            } else {
                NoLossAction::Supplement { order: Some(market_order(&self.long_leg, "Sell", quantity, true)) }
            }
        }
    }

    /// Ends the task where it was cancelled.
    pub fn look(&mut self, task: &mut BatchIncreaseTask, now: i64)
        requires
            old(self).wf(),
            old(self).stage is Head,
            old(self).open(),
        ensures
            final(self).wf(),
            ends_as(*final(task), final(self).stage),
            if old(task).cancel_requested {
                &&& restated(*final(task), *old(task), "cancelled"@, now)
                &&& *final(self) == (NoLossRun { stage: NoLossStage::Cancelled, ..*old(self) })
            } else {
                &&& *final(task) == *old(task)
                &&& *final(self) == (NoLossRun { stage: NoLossStage::Quote, ..*old(self) })
            },
    {
        if batch_cancelled(Some(&*task)) {
            set_status(task, "cancelled", now);
            self.stage = NoLossStage::Cancelled;
        } else {
            self.stage = NoLossStage::Quote;
        }
    }

    /// Ends the task that has nothing more open.
    pub fn conclude(&mut self, task: &mut BatchIncreaseTask, now: i64)
        requires
            old(self).wf(),
            old(self).stage is Head,
            !old(self).open(),
        ensures
            final(self).wf(),
            ends_as(*final(task), final(self).stage),
            *final(self) == (NoLossRun { stage: NoLossStage::Completed, ..*old(self) }),
            restated(*final(task), *old(task), "completed"@, now),
    {
        set_status(task, "completed", now);
        self.stage = NoLossStage::Completed;
    }

    fn side_plan(leg: &Leg, side: &str, quantity: Double, price: Double) -> (plan: Option<OrderPlan>)
        ensures
            plan is Some == orderable(quantity),
            plan is Some ==> plans(plan->0, *leg, side@, quantity, true, Some(price)),
    {
        if quantity.gt(Double { bits: ZERO }) {
            Some(limit_order(leg, side, quantity, price, true))
        } else {
            None
        }
    }

    fn copy_fills(fills: &Vec<CloseUnmatchedFill>) -> (r: Vec<CloseUnmatchedFill>)
        ensures
            r@ == fills@,
    {
        let mut r: Vec<CloseUnmatchedFill> = Vec::new();
        let mut i: usize = 0;
        while i < fills.len()
            invariant
                i <= fills@.len(),
                r@ == fills@.take(i as int),
            decreases fills@.len() - i,
        {
            proof {
                assert(fills@.take(i as int + 1) =~= fills@.take(i as int).push(fills@[i as int]));
            }
            r.push(fills[i]);
            i = i + 1;
        }
        proof {
            assert(fills@.take(fills@.len() as int) =~= fills@);
        }
        r
    }

    fn projected_pnl(&self, desired: Double, long_bid: Double, short_ask: Double) -> (pnl: Double)
        requires
            self.wf(),
            desired == self.desired(),
        ensures
            pnl == self.projected(long_bid, short_ask),
    {
        let epsilon = Double { bits: EPSILON };
        let mut long = Self::copy_fills(&self.unmatched_long);
        let mut short = Self::copy_fills(&self.unmatched_short);
        proof {
            lemma_order_cap_finite(self.target.sub_spec(self.completed));
        }
        if desired.gt(Double { bits: ZERO }) {
            long.push(
                CloseUnmatchedFill {
                    notional_usdt: desired,
                    pnl_ratio: long_bid.sub(self.position.long.entry_price).div(long_bid.max(epsilon)),
                    price: long_bid,
                },
            );
            short.push(
                CloseUnmatchedFill {
                    notional_usdt: desired,
                    pnl_ratio: self.position.short.entry_price.sub(short_ask).div(short_ask.max(epsilon)),
                    price: short_ask,
                },
            );
        }
        let (_matched, pnl, _spread) = match_close_fills(&mut long, &mut short);
        pnl
    }

    /// Decides about the bid of the long leg and the ask of the short leg, or
    /// about quotes that could not be had. The result says how long to wait, in
    /// milliseconds.
    pub fn on_quotes(
        &mut self,
        task: &mut BatchIncreaseTask,
        quotes: Option<(Double, Double)>,
        now: i64,
    ) -> (wait: u64)
        requires
            old(self).wf(),
            old(self).stage is Quote,
        ensures
            final(self).wf(),
            match quotes {
                None => {
                    &&& wait == SPREAD_GUARD_POLL_MILLIS
                    &&& *final(self) == (NoLossRun { stage: NoLossStage::Head, ..*old(self) })
                    &&& *final(task) == waited(*old(task), None, now)
                },
                Some((long_bid, short_ask)) => {
                    let spread = close_spread(long_bid, short_ask);
                    let agreed = old(self).agreed(spread);
                    let effective = old(self).effective(agreed);
                    let seen = BatchIncreaseTask {
                        spread_threshold: Some(agreed),
                        current_spread: Some(spread),
                        effective_spread_threshold: Some(effective),
                        updated_at: now,
                        ..*old(task)
                    };
                    let pnl = old(self).projected(long_bid, short_ask);
                    let valued = BatchIncreaseTask {
                        current_close_pnl_usdt: Some(old(self).realized_pnl.add_spec(pnl)),
                        ..seen
                    };
                    let long_quantity = old(self).long_quantity(long_bid);
                    let short_quantity = old(self).short_quantity(short_ask);
                    let kept = NoLossRun {
                        stage: NoLossStage::Head,
                        close_spread_threshold: Some(agreed),
                        ..*old(self)
                    };
                    if !close_allowed(spread, effective) {
                        &&& wait == SPREAD_GUARD_POLL_MILLIS
                        &&& *final(self) == kept
                        &&& *final(task) == waited(seen, Some(spread), now)
                    } else if !without_loss(old(self).realized_pnl, pnl) || (long_quantity.le_spec(
                        Double { bits: ZERO },
                    ) && short_quantity.le_spec(Double { bits: ZERO })) {
                        &&& wait == SPREAD_GUARD_POLL_MILLIS
                        &&& *final(self) == kept
                        &&& *final(task) == waited(valued, None, now)
                    } else {
                        &&& wait == 0
                        &&& *final(self) == (NoLossRun {
                            stage: NoLossStage::Orders,
                            quotes,
                            batch: bumped(old(self).batch),
                            ..kept
                        })
                        &&& *final(task) == valued
                    }
                },
            },
    {
        self.stage = NoLossStage::Head;
        let (long_bid, short_ask) = match quotes {
            Some(q) => q,
            None => {
                record_spread_wait(task, None, now);
                return SPREAD_GUARD_POLL_MILLIS;
            },
        };
        let spread = short_ask.sub(long_bid).div(long_bid.max(Double { bits: EPSILON }));
        let agreed = match self.close_spread_threshold {
            Some(threshold) => threshold,
            None => spread,
        };
        self.close_spread_threshold = Some(agreed);
        let remaining = self.target.sub(self.completed).max(Double { bits: ZERO });
        let cap = Double { bits: SPREAD_GUARD_ORDER_CAP_USDT };
        let desired = cap.min(remaining);
        let available: u32 = remaining.div(cap).ceil().max(Double { bits: ONE }).to_unsigned(u32::MAX);
        let effective = self.recovery.close_threshold(agreed, desired, available);
        task.spread_threshold = Some(agreed);
        task.current_spread = Some(spread);
        task.effective_spread_threshold = Some(effective);
        task.updated_at = now;
        if !close_spread_guard_allows(spread, effective) {
            record_spread_wait(task, Some(spread), now);
            return SPREAD_GUARD_POLL_MILLIS;
        }
        let pnl = self.projected_pnl(desired, long_bid, short_ask);
        task.current_close_pnl_usdt = Some(self.realized_pnl.add(pnl));
        if !no_loss_next_batch_allowed(self.realized_pnl, pnl) {
            record_spread_wait(task, None, now);
            return SPREAD_GUARD_POLL_MILLIS;
        }
        let zero = Double { bits: ZERO };
        let long_quantity = floor_step(desired.div(long_bid), self.long_leg.qty_step).min(
            self.position.long.quantity,
        );
        let short_quantity = floor_step(desired.div(short_ask), self.short_leg.qty_step).min(
            self.position.short.quantity,
        );
        if long_quantity.le(zero) && short_quantity.le(zero) {
            record_spread_wait(task, None, now);
            return SPREAD_GUARD_POLL_MILLIS;
        }
        self.batch = bump(self.batch);
        self.quotes = Some((long_bid, short_ask));
        self.stage = NoLossStage::Orders;
        0
    }

    fn make_long_fill(&self, order: &OrderExecution) -> (fill: CloseUnmatchedFill)
        ensures
            fill == self.long_fill(*order),
    {
        CloseUnmatchedFill {
            notional_usdt: filled_notional(order),
            pnl_ratio: order.average_price.sub(self.position.long.entry_price).div(order.average_price),
            price: order.average_price,
        }
    }

    fn make_short_fill(&self, order: &OrderExecution) -> (fill: CloseUnmatchedFill)
        ensures
            fill == self.short_fill(*order),
    {
        CloseUnmatchedFill {
            notional_usdt: filled_notional(order),
            pnl_ratio: self.position.short.entry_price.sub(order.average_price).div(order.average_price),
            price: order.average_price,
        }
    }

    /// The long fills with one more, where an order brought one.
    pub open spec fn with_long(self, order: Option<OrderExecution>) -> Seq<CloseUnmatchedFill> {
        if counts(order) {
            self.unmatched_long@.push(self.long_fill(order->0))
        } else {
            self.unmatched_long@
        }
    }

    /// The short fills with one more, where an order brought one.
    pub open spec fn with_short(self, order: Option<OrderExecution>) -> Seq<CloseUnmatchedFill> {
        if counts(order) {
            self.unmatched_short@.push(self.short_fill(order->0))
        } else {
            self.unmatched_short@
        }
    }

    /// Takes in what came of the orders of a batch.
    pub fn on_orders(&mut self, long: Option<OrderExecution>, short: Option<OrderExecution>, now: i64)
        requires
            old(self).wf(),
            old(self).stage is Orders,
            bounded(long),
            bounded(short),
        ensures
            final(self).wf(),
            ({
                let zero = Double { bits: ZERO };
                let m = matched_close(old(self).with_long(long), old(self).with_short(short), zero, zero, zero);
                &&& *final(self) == (NoLossRun {
                    stage: NoLossStage::Even,
                    unmatched_long: final(self).unmatched_long,
                    unmatched_short: final(self).unmatched_short,
                    matched: m.matched,
                    matched_pnl: m.pnl,
                    matched_spread_value: m.spread,
                    attempt: 0,
                    logs: final(self).logs,
                    ..*old(self)
                })
                &&& final(self).unmatched_long@ == m.long
                &&& final(self).unmatched_short@ == m.short
                &&& final(self).logs@.len() == (if counts(long) {
                    1nat
                } else {
                    0nat
                }) + (if counts(short) {
                    1nat
                } else {
                    0nat
                })
                &&& counts(long) ==> is_fill_log(
                    final(self).logs@[0],
                    old(self).position.token@,
                    old(self).batch,
                    "long"@,
                    long->0,
                    no_loss_message(false),
                    now,
                )
                &&& counts(short) ==> is_fill_log(
                    final(self).logs@.last(),
                    old(self).position.token@,
                    old(self).batch,
                    "short"@,
                    short->0,
                    no_loss_message(false),
                    now,
                )
            }),
    {
        let mut logs: Vec<BatchExecutionLog> = Vec::new();
        let zero = Double { bits: ZERO };
        if let Some(order) = &long {
            if filled_notional(order).gt(zero) {
                let fill = self.make_long_fill(order);
                self.unmatched_long.push(fill);
                logs.push(
                    no_loss_batch_log(self.position.token.as_str(), self.batch, "long", order, false, now),
                );
            }
        }
        if let Some(order) = &short {
            if filled_notional(order).gt(zero) {
                let fill = self.make_short_fill(order);
                self.unmatched_short.push(fill);
                logs.push(
                    no_loss_batch_log(self.position.token.as_str(), self.batch, "short", order, false, now),
                );
            }
        }
        let (matched, pnl, spread) = match_close_fills(&mut self.unmatched_long, &mut self.unmatched_short);
        self.matched = matched;
        self.matched_pnl = pnl;
        self.matched_spread_value = spread;
        self.attempt = 0;
        self.logs = logs;
        self.stage = NoLossStage::Even;
    }

    /// Takes in what came of the attempt to even out the legs: an order for the
    /// side that has closed less, or nothing.
    pub fn on_supplement(&mut self, order: Option<OrderExecution>, now: i64)
        requires
            old(self).wf(),
            old(self).stage is Even,
            !old(self).evened(),
            bounded(order),
        ensures
            final(self).wf(),
            match order {
                None => *final(self) == (NoLossRun { attempt: (old(self).attempt + 1) as u8, ..*old(self) }),
                Some(o) => {
                    let zero = Double { bits: ZERO };
                    let long_side = !old(self).short_lags();
                    let m = matched_close(
                        if long_side {
                            old(self).unmatched_long@.push(old(self).long_fill(o))
                        } else {
                            old(self).unmatched_long@
                        },
                        if long_side {
                            old(self).unmatched_short@
                        } else {
                            old(self).unmatched_short@.push(old(self).short_fill(o))
                        },
                        zero,
                        zero,
                        zero,
                    );
                    &&& adds(final(self).matched, old(self).matched, m.matched)
                    &&& adds(final(self).matched_pnl, old(self).matched_pnl, m.pnl)
                    &&& adds(final(self).matched_spread_value, old(self).matched_spread_value, m.spread)
                    &&& *final(self) == (NoLossRun {
                        attempt: (old(self).attempt + 1) as u8,
                        unmatched_long: final(self).unmatched_long,
                        unmatched_short: final(self).unmatched_short,
                        matched: old(self).matched.add_spec(m.matched),
                        matched_pnl: old(self).matched_pnl.add_spec(m.pnl),
                        matched_spread_value: old(self).matched_spread_value.add_spec(m.spread),
                        logs: final(self).logs,
                        ..*old(self)
                    })
                    &&& final(self).unmatched_long@ == m.long
                    &&& final(self).unmatched_short@ == m.short
                    &&& final(self).logs@.drop_last() == old(self).logs@
                    &&& final(self).logs@.len() == old(self).logs@.len() + 1
                    &&& is_fill_log(
                        final(self).logs@.last(),
                        old(self).position.token@,
                        old(self).batch,
                        if long_side {
                            "long"@
                        } else {
                            "short"@
                        },
                        o,
                        "单腿平仓差额立即市价补齐"@,
                        now,
                    )
                },
            },
    {
        let long_side: bool = !close_unmatched_total(&self.unmatched_long).gt(
            close_unmatched_total(&self.unmatched_short),
        );
        self.attempt = self.attempt + 1;
        let order = match order {
            Some(order) => order,
            None => return,
        };
        let side = if long_side {
            let fill = self.make_long_fill(&order);
            self.unmatched_long.push(fill);
            "long"
        } else {
            let fill = self.make_short_fill(&order);
            self.unmatched_short.push(fill);
            "short"
        };
        let line = no_loss_market_supplement_log(
            self.position.token.as_str(),
            self.batch,
            side,
            &order,
            now,
        );
        let ghost before = self.logs@;
        self.logs.push(line);
        proof {
            assert(self.logs@.drop_last() =~= before);
        }
        let (matched, pnl, spread) = match_close_fills(&mut self.unmatched_long, &mut self.unmatched_short);
        proof {
            lemma_adds(self.matched, matched);
            lemma_adds(self.matched_pnl, pnl);
            lemma_adds(self.matched_spread_value, spread);
        }
        self.matched = self.matched.add(matched);
        self.matched_pnl = self.matched_pnl.add(pnl);
        self.matched_spread_value = self.matched_spread_value.add(spread);
    }

    /// Ends the task where the legs are still apart: it is done where a full
    /// close has left nothing, and has failed otherwise. The positions that are
    /// left are `None` where they were not asked for or could not be had.
    pub fn check_residual(&mut self, task: &mut BatchIncreaseTask, positions: Option<&Vec<Position>>, now: i64)
        requires
            old(self).wf(),
            old(self).stage is Even,
            old(self).evened(),
        ensures
            final(self).wf(),
            ends_as(*final(task), final(self).stage),
            ({
                let left = match positions {
                    Some(list) => Some(list@),
                    None => None,
                };
                if !old(self).uneven() {
                    &&& *final(self) == (NoLossRun { stage: NoLossStage::Book, ..*old(self) })
                    &&& *final(task) == *old(task)
                } else if old(self).close_all && known_gone(left, old(self).position.id@) {
                    &&& *final(self) == (NoLossRun {
                        stage: NoLossStage::Completed,
                        gone: true,
                        logs: final(self).logs,
                        ..*old(self)
                    })
                    &&& *final(task) == (BatchIncreaseTask {
                        completed_notional_usdt: old(task).target_notional_usdt,
                        completed_batches: old(self).batch,
                        current_position: None,
                        logs: final(task).logs,
                        status: final(task).status,
                        updated_at: now,
                        ..*old(task)
                    })
                    &&& final(task).status@ == "completed"@
                    &&& final(task).logs@ == appended(old(task).logs@, old(self).logs@)
                } else {
                    &&& *final(self) == (NoLossRun { stage: NoLossStage::Failed, ..*old(self) })
                    &&& failed(
                        *final(task),
                        *old(task),
                        old(self).batch,
                        naked_close_supplement(old(self).difference()),
                        now,
                    )
                }
            }),
    {
        let residual = close_unmatched_total(&self.unmatched_long).sub(
            close_unmatched_total(&self.unmatched_short),
        ).abs();
        if !residual.gt(Double { bits: TEN }) {
            self.stage = NoLossStage::Book;
            return;
        }
        let gone: bool = match positions {
            Some(list) => find_position(list, self.position.id.as_str()).is_none(),
            None => false,
        };
        if self.close_all && gone {
            task.completed_notional_usdt = task.target_notional_usdt;
            task.completed_batches = self.batch;
            task.current_position = None;
            let mut lines: Vec<BatchExecutionLog> = Vec::new();
            lines.append(&mut self.logs);
            proof {
                assert(lines@ =~= old(self).logs@);
            }
            append_logs(&mut task.logs, lines);
            task.status = "completed".to_owned();
            task.updated_at = now;
            self.gone = true;
            self.stage = NoLossStage::Completed;
            return;
        }
        let mut message = "NAKED_EXPOSURE: immediate market close supplement failed after ".to_owned();
        message.append(digits_text(MAX_RECONCILIATION_ATTEMPTS as u128).as_str());
        message.append(" attempts; residual mismatch ");
        message.append(fixed(residual, 2).as_str());
        message.append(" USDT");
        fail_batch_task(task, self.batch, message, now);
        self.stage = NoLossStage::Failed;
    }

    /// Books a batch whose legs are even. The result says how long to wait, in
    /// milliseconds: that is so where nothing was matched.
    pub fn settle(&mut self, task: &mut BatchIncreaseTask, current_position: Option<Position>, now: i64) -> (wait:
        u64)
        requires
            old(self).wf(),
            old(self).stage is Book,
            !old(self).uneven(),
        ensures
            final(self).wf(),
            ({
                let completed = old(self).completed.add_spec(old(self).matched).min_spec(old(self).target);
                let pnl = old(self).realized_pnl.add_spec(old(self).matched_pnl);
                let spread = old(self).cumulative_spread_value.add_spec(old(self).matched_spread_value);
                &&& *final(self) == (NoLossRun {
                    stage: NoLossStage::Head,
                    completed,
                    realized_pnl: pnl,
                    cumulative_spread_value: spread,
                    recovery: old(self).recovery.after_close(
                        old(self).close_spread_threshold->0,
                        completed,
                        spread,
                    ),
                    logs: final(self).logs,
                    ..*old(self)
                })
                &&& final(self).logs@ == Seq::<BatchExecutionLog>::empty()
                &&& *final(task) == (BatchIncreaseTask {
                    completed_notional_usdt: completed,
                    completed_batches: old(self).batch,
                    current_position,
                    current_close_pnl_usdt: Some(pnl),
                    cumulative_filled_spread: if (Double { bits: EPSILON }).lt_spec(completed) {
                        Some(spread.div_spec(completed))
                    } else {
                        None
                    },
                    logs: final(task).logs,
                    updated_at: now,
                    ..*old(task)
                })
                &&& final(task).logs@ == appended(old(task).logs@, old(self).logs@)
                &&& wait == (if old(self).matched.le_spec(Double { bits: EPSILON }) {
                    SPREAD_GUARD_POLL_MILLIS
                } else {
                    0
                })
            }),
            grows_up_to(final(self).completed, old(self).completed, old(self).matched, old(self).target),
            adds(final(self).realized_pnl, old(self).realized_pnl, old(self).matched_pnl),
            adds(
                final(self).cumulative_spread_value,
                old(self).cumulative_spread_value,
                old(self).matched_spread_value,
            ),
            is_over_by(
                final(self).recovery.debt_usdt,
                final(self).close_spread_threshold->0,
                final(self).completed,
                final(self).cumulative_spread_value,
            ),
            final(task).cumulative_filled_spread matches Some(spread) ==> is_share(
                spread,
                final(self).cumulative_spread_value,
                final(self).completed,
            ),
    {
        proof {
            lemma_grows_up_to(self.completed, self.matched, self.target);
            lemma_adds(self.realized_pnl, self.matched_pnl);
            lemma_adds(self.cumulative_spread_value, self.matched_spread_value);
            let completed = self.completed.add_spec(self.matched).min_spec(self.target);
            let spread = self.cumulative_spread_value.add_spec(self.matched_spread_value);
            lemma_recoveries_are_owed(self.recovery, self.close_spread_threshold->0, completed, spread);
            lemma_is_share(spread, completed);
        }
        let threshold = match self.close_spread_threshold {
            Some(threshold) => threshold,
            None => Double { bits: ZERO },
        };
        self.stage = NoLossStage::Head;
        self.completed = self.completed.add(self.matched).min(self.target);
        self.realized_pnl = self.realized_pnl.add(self.matched_pnl);
        self.cumulative_spread_value = self.cumulative_spread_value.add(self.matched_spread_value);
        self.recovery.record_close_cumulative(threshold, self.completed, self.cumulative_spread_value);
        task.completed_notional_usdt = self.completed;
        task.completed_batches = self.batch;
        task.current_position = current_position;
        task.current_close_pnl_usdt = Some(self.realized_pnl);
        task.cumulative_filled_spread = if self.completed.gt(Double { bits: EPSILON }) {
            Some(self.cumulative_spread_value.div(self.completed))
        } else {
            None
        };
        let mut lines: Vec<BatchExecutionLog> = Vec::new();
        lines.append(&mut self.logs);
        proof {
            assert(lines@ =~= old(self).logs@);
        }
        append_logs(&mut task.logs, lines);
        task.updated_at = now;
        if self.matched.le(Double { bits: EPSILON }) {
            SPREAD_GUARD_POLL_MILLIS
        } else {
            0
        }
    }
}

/// A close that must not lose sends its orders only where they bring no loss on
/// the whole, books a batch only with even legs, and is completed only where
/// nothing more is open or the whole position is gone.
pub proof fn lemma_no_loss_is_taken(run: NoLossRun)
    requires
        run.wf(),
    ensures
        run.stage is Orders ==> without_loss(run.realized_pnl, run.projected_now()),
        run.stage is Book ==> !run.uneven(),
        run.stage is Completed ==> !run.open() || (run.close_all && run.gone),
        (Double { bits: ZERO }).le_spec(run.target) ==> run.completed.le_spec(run.target),
{
}

} // verus!
