//! Batch tasks: taking them on, and running them in equal steps.

use crate::config::TradingMode;
use crate::failure::{Failure, Reason};
use crate::models::{
    BatchExecutionLog, BatchIncreaseRequest, BatchIncreaseTask, BatchReduceRequest, OpenTradeRequest,
    OpportunitiesResponse,
    Opportunity, Position, TradeResponse,
};
use crate::num::constants::{HALF, MILLION, QUARTER, SECONDS_PER_HOUR, TEN, THOUSANDTH, ZERO};
use crate::num::Double;
use crate::parsing::trimmed;
use crate::sorting::{is_stable_order, stable_order};
use crate::text::{contains, occurs, same, upper};
use crate::trading::amounts::{executable_top_notional, open_allowed, spread_guard_allows, top_notional};
use crate::trading::live::{is_within, plain, within};
use crate::trading::logs::{
    append_logs, appended, are_batch_logs, are_reduce_logs, batch_logs, batch_reduce_logs, bump, bumped,
};
use crate::trading::rules::{find_position, position_at};
use crate::trading::service::{added, one_active, resolve_opportunity, resolved, TradingService};
use crate::trading::tasks::{
    active, batch_cancelled, fail_batch_task, failed, is_active, record_spread_wait, restated, set_status, waited,
};
use crate::trading::books::{adds, lemma_adds};
use vstd::prelude::*;

verus! {

/// The place of a task.
pub open spec fn task_at(tasks: Seq<BatchIncreaseTask>, id: Seq<char>) -> Option<int>
    decreases tasks.len(),
{
    if tasks.len() == 0 {
        None
    } else if tasks[0].id@ == id {
        Some(0)
    } else {
        match task_at(tasks.drop_first(), id) {
            Some(i) => Some(i + 1),
            None => None,
        }
    }
}

pub fn find_task(tasks: &Vec<BatchIncreaseTask>, id: &str) -> (r: Option<usize>)
    ensures
        match r {
            Some(i) => i < tasks@.len() && task_at(tasks@, id@) == Some(i as int),
            None => task_at(tasks@, id@) is None,
        },
{
    let mut i: usize = 0;
    proof {
        assert(tasks@.skip(0) =~= tasks@);
    }
    while i < tasks.len()
        invariant
            i <= tasks@.len(),
            task_at(tasks@, id@) == match task_at(tasks@.skip(i as int), id@) {
                Some(j) => Some(j + i),
                None => None,
            },
        decreases tasks@.len() - i,
    {
        proof {
            assert(tasks@.skip(i as int)[0] == tasks@[i as int]);
            assert(tasks@.skip(i as int).drop_first() =~= tasks@.skip(i as int + 1));
        }
        if same(tasks[i].id.as_str(), id) {
            return Some(i);
        }
        i = i + 1;
    }
    None
}

/// Whether any task holds the desk.
pub open spec fn any_active(tasks: Seq<BatchIncreaseTask>) -> bool {
    exists|i: int| 0 <= i < tasks.len() && active(#[trigger] tasks[i])
}

/// Whether a task does the same for the same token and still holds the desk.
pub open spec fn is_underway(task: BatchIncreaseTask, action: Seq<char>, token: Seq<char>) -> bool {
    task.action@ == action && task.token@ == token && active(task)
}

/// The first task that does the same for the same token and still holds the
/// desk.
pub open spec fn underway(tasks: Seq<BatchIncreaseTask>, action: Seq<char>, token: Seq<char>) -> Option<int>
    decreases tasks.len(),
{
    if tasks.len() == 0 {
        None
    } else if is_underway(tasks[0], action, token) {
        Some(0)
    } else {
        match underway(tasks.drop_first(), action, token) {
            Some(i) => Some(i + 1),
            None => None,
        }
    }
}

fn find_underway(tasks: &Vec<BatchIncreaseTask>, action: &str, token: &str) -> (r: Option<usize>)
    ensures
        match r {
            Some(i) => i < tasks@.len() && underway(tasks@, action@, token@) == Some(i as int),
            None => underway(tasks@, action@, token@) is None,
        },
{
    let mut i: usize = 0;
    proof {
        assert(tasks@.skip(0) =~= tasks@);
    }
    while i < tasks.len()
        invariant
            i <= tasks@.len(),
            underway(tasks@, action@, token@) == match underway(tasks@.skip(i as int), action@, token@) {
                Some(j) => Some(j + i),
                None => None,
            },
        decreases tasks@.len() - i,
    {
        proof {
            assert(tasks@.skip(i as int)[0] == tasks@[i as int]);
            assert(tasks@.skip(i as int).drop_first() =~= tasks@.skip(i as int + 1));
        }
        if same(tasks[i].action.as_str(), action) && same(tasks[i].token.as_str(), token) && is_active(
            &tasks[i],
        ) {
            return Some(i);
        }
        i = i + 1;
    }
    None
}

fn is_any_active(tasks: &Vec<BatchIncreaseTask>) -> (b: bool)
    ensures
        b == any_active(tasks@),
{
    let mut i: usize = 0;
    while i < tasks.len()
        invariant
            i <= tasks@.len(),
            forall|k: int| 0 <= k < i ==> !active(#[trigger] tasks@[k]),
        decreases tasks@.len() - i,
    {
        if is_active(&tasks[i]) {
            return true;
        }
        i = i + 1;
    }
    false
}

/// The tasks with one put in: in the place of the one with its identifier, or
/// at the end.
pub open spec fn enlisted(tasks: Seq<BatchIncreaseTask>, task: BatchIncreaseTask) -> Seq<BatchIncreaseTask> {
    match task_at(tasks, task.id@) {
        Some(i) => tasks.update(i, task),
        None => tasks.push(task),
    }
}

fn enlist(tasks: &mut Vec<BatchIncreaseTask>, task: BatchIncreaseTask)
    ensures
        final(tasks)@ == enlisted(old(tasks)@, task),
{
    match find_task(tasks, task.id.as_str()) {
        Some(i) => {
            tasks.set(i, task);
        },
        None => {
            tasks.push(task);
        },
    }
}

/// A new task on a desk that nothing holds is the only one that holds it.
pub proof fn lemma_enlist_keeps_one_active(tasks: Seq<BatchIncreaseTask>, task: BatchIncreaseTask)
    requires
        !any_active(tasks),
    ensures
        one_active(enlisted(tasks, task)),
{
    let new = enlisted(tasks, task);
    lemma_task_at_in_range(tasks, task.id@);
    assert forall|i: int, j: int| 0 <= i < j < new.len() implies !(active(#[trigger] new[i]) && active(
        #[trigger] new[j],
    )) by {
        let at = match task_at(tasks, task.id@) {
            Some(k) => k,
            None => tasks.len() as int,
        };
        if i != at {
            assert(new[i] == tasks[i]);
        } else {
            assert(new[j] == tasks[j]);
        }
    }
}

/// A task that holds the desk may change in any way, and one that does not hold
/// it may change as long as it does not take it: at most one task holds the
/// desk.
pub proof fn lemma_update_keeps_one_active(tasks: Seq<BatchIncreaseTask>, i: int, task: BatchIncreaseTask)
    requires
        one_active(tasks),
        0 <= i < tasks.len(),
        active(tasks[i]) || !active(task),
    ensures
        one_active(tasks.update(i, task)),
{
    let new = tasks.update(i, task);
    assert forall|a: int, b: int| 0 <= a < b < new.len() implies !(active(#[trigger] new[a]) && active(
        #[trigger] new[b],
    )) by {
        assert(!(active(tasks[a]) && active(tasks[b])));
    }
}

proof fn lemma_task_at_in_range(tasks: Seq<BatchIncreaseTask>, id: Seq<char>)
    ensures
        task_at(tasks, id) matches Some(i) ==> 0 <= i < tasks.len(),
    decreases tasks.len(),
{
    if tasks.len() > 0 {
        lemma_task_at_in_range(tasks.drop_first(), id);
    }
}

/// Whether a number lies between ten and another one.
pub open spec fn from_ten_to(x: Double, high: Double) -> bool {
    (Double { bits: TEN }).le_spec(x) && x.le_spec(high)
}

/// What is wrong with a request for a batch increase, whatever the market says.
pub open spec fn increase_fault(request: BatchIncreaseRequest) -> Option<Reason> {
    if !within(request.target_notional_usdt, TEN, MILLION) {
        Some(Reason::TargetRange)
    } else if !request.spread_guard && !from_ten_to(
        request.order_notional_usdt,
        request.target_notional_usdt,
    ) {
        Some(Reason::OrderTargetRange)
    } else if !request.spread_guard && !within(request.interval_seconds, HALF, SECONDS_PER_HOUR) {
        Some(Reason::IntervalSecondsRange)
    } else if !(1 <= request.leverage <= 20) {
        Some(Reason::LeverageRange)
    } else {
        None
    }
}

/// Checks a request for a batch increase before the market is asked.
pub fn check_increase(request: &BatchIncreaseRequest) -> (r: Result<(), Failure>)
    ensures
        match increase_fault(*request) {
            Some(reason) => r == Err::<(), Failure>(plain(reason)),
            None => r is Ok,
        },
{
    if !is_within(request.target_notional_usdt, TEN, MILLION) {
        return Err(Failure::new(Reason::TargetRange));
    }
    if !request.spread_guard && !((Double { bits: TEN }).le(request.order_notional_usdt)
        && request.order_notional_usdt.le(request.target_notional_usdt)) {
        return Err(Failure::new(Reason::OrderTargetRange));
    }
    if !request.spread_guard && !is_within(request.interval_seconds, HALF, SECONDS_PER_HOUR) {
        return Err(Failure::new(Reason::IntervalSecondsRange));
    }
    if !(1 <= request.leverage && request.leverage <= 20) {
        return Err(Failure::new(Reason::LeverageRange));
    }
    Ok(())
}

/// How many equal steps a target takes.
pub open spec fn steps(target: Double, order: Double) -> usize {
    target.div_spec(order).ceil_spec().saturated(u32::MAX as nat) as usize
}

/// A task just taken on.
pub open spec fn is_queued(task: BatchIncreaseTask, action: Seq<char>, id: String, now: i64) -> bool {
    &&& task.id == id
    &&& task.action@ == action
    &&& task.status@ == "queued"@
    &&& task.cumulative_filled_spread is None
    &&& task.spread_wait_count == 0
    &&& task.current_close_pnl_usdt is None
    &&& task.completed_notional_usdt == (Double { bits: ZERO })
    &&& task.completed_batches == 0
    &&& task.started_at == now
    &&& task.updated_at == now
    &&& !task.cancel_requested
    &&& task.error is None
    &&& task.current_position is None
    &&& task.logs@ == Seq::<BatchExecutionLog>::empty()
}

/// The spread that a request insists on.
pub open spec fn insisted(threshold: Option<Double>, spread: Double) -> Double {
    match threshold {
        Some(t) => t,
        None => spread,
    }
}

/// The task of a batch increase.
pub open spec fn is_increase_task(
    task: BatchIncreaseTask,
    request: BatchIncreaseRequest,
    opportunity: Opportunity,
    id: String,
    now: i64,
) -> bool {
    &&& is_queued(task, "increase"@, id, now)
    &&& task.token == opportunity.token.symbol
    &&& task.long_exchange == opportunity.long.exchange
    &&& task.short_exchange == opportunity.short.exchange
    &&& task.target_notional_usdt == request.target_notional_usdt
    &&& task.order_notional_usdt == (if request.spread_guard {
        Double { bits: ZERO }
    } else {
        request.order_notional_usdt
    })
    &&& task.interval_seconds == (if request.spread_guard {
        Double { bits: QUARTER }
    } else {
        request.interval_seconds
    })
    &&& task.leverage == Some(request.leverage)
    &&& task.spread_guard == request.spread_guard
    &&& task.spread_threshold == (if request.spread_guard {
        Some(insisted(request.spread_threshold, opportunity.spread))
    } else {
        None
    })
    &&& task.current_spread == Some(opportunity.spread)
    &&& task.effective_spread_threshold == task.spread_threshold
    &&& !task.no_loss_guard
    &&& task.total_batches == (if request.spread_guard {
        0
    } else {
        steps(request.target_notional_usdt, request.order_notional_usdt)
    })
}

/// The task of a batch reduction.
pub open spec fn is_reduce_task(
    task: BatchIncreaseTask,
    request: BatchReduceRequest,
    target: Double,
    position: Position,
    id: String,
    now: i64,
) -> bool {
    &&& is_queued(task, "reduce"@, id, now)
    &&& task.token == position.token
    &&& task.long_exchange == position.long.exchange
    &&& task.short_exchange == position.short.exchange
    &&& task.target_notional_usdt == target
    &&& task.order_notional_usdt == (if request.no_loss_guard {
        Double { bits: ZERO }
    } else {
        request.order_notional_usdt
    })
    &&& task.interval_seconds == (if request.no_loss_guard {
        Double { bits: QUARTER }
    } else {
        request.interval_seconds
    })
    &&& task.leverage is None
    &&& !task.spread_guard
    &&& task.spread_threshold == (if request.no_loss_guard {
        request.close_spread_threshold
    } else {
        None
    })
    &&& task.current_spread is None
    &&& task.effective_spread_threshold is None
    &&& task.no_loss_guard == request.no_loss_guard
    &&& task.total_batches == (if request.no_loss_guard {
        0
    } else {
        steps(target, request.order_notional_usdt)
    })
}

/// How much a reduction asks for.
pub open spec fn asked(request: BatchReduceRequest, position: Position) -> Double {
    if request.close_all {
        position.notional_usdt
    } else {
        request.target_notional_usdt
    }
}

/// What is wrong with a request for a batch reduction of a position.
pub open spec fn reduce_fault(request: BatchReduceRequest, position: Position, tolerance: Double) -> Option<Reason> {
    let target = asked(request, position);
    if !within(target, TEN, MILLION) {
        Some(Reason::TargetRange)
    } else if !request.no_loss_guard && !from_ten_to(request.order_notional_usdt, target) {
        Some(Reason::OrderTargetRange)
    } else if !request.no_loss_guard && !within(request.interval_seconds, HALF, SECONDS_PER_HOUR) {
        Some(Reason::IntervalSecondsRange)
    } else if !request.close_all && position.notional_usdt.sub_spec(tolerance).max_spec(
        Double { bits: ZERO },
    ).lt_spec(target) {
        Some(Reason::LeavesTooLittle { tolerance })
    } else {
        None
    }
}

/// Checks a request for a batch reduction of a position.
pub fn check_reduce(request: &BatchReduceRequest, position: &Position, tolerance: Double) -> (r: Result<
    Double,
    Failure,
>)
    ensures
        match reduce_fault(*request, *position, tolerance) {
            Some(reason) => r == Err::<Double, Failure>(plain(reason)),
            None => r == Ok::<Double, Failure>(asked(*request, *position)),
        },
{
    let target = if request.close_all {
        position.notional_usdt
    } else {
        request.target_notional_usdt
    };
    if !is_within(target, TEN, MILLION) {
        return Err(Failure::new(Reason::TargetRange));
    }
    if !request.no_loss_guard && !((Double { bits: TEN }).le(request.order_notional_usdt)
        && request.order_notional_usdt.le(target)) {
        return Err(Failure::new(Reason::OrderTargetRange));
    }
    if !request.no_loss_guard && !is_within(request.interval_seconds, HALF, SECONDS_PER_HOUR) {
        return Err(Failure::new(Reason::IntervalSecondsRange));
    }
    let maximum = position.notional_usdt.sub(tolerance).max(Double { bits: ZERO });
    if !request.close_all && target.gt(maximum) {
        return Err(Failure::new(Reason::LeavesTooLittle { tolerance }));
    }
    Ok(target)
}

/// A task that was taken on, or one that is underway already.
pub struct Taken {
    pub task: BatchIncreaseTask,
    pub fresh: bool,
}

/// What becomes of a task that could be taken on: nothing where the same is
/// underway, which is handed out instead; a refusal where another task holds
/// the desk; otherwise it is put on the list.
pub open spec fn admitted(
    r: Result<Taken, Failure>,
    new: Seq<BatchIncreaseTask>,
    old: Seq<BatchIncreaseTask>,
    action: Seq<char>,
    token: Seq<char>,
) -> bool {
    match underway(old, action, token) {
        Some(i) => {
            &&& r matches Ok(taken)
            &&& !taken.fresh
            &&& taken.task.copies(old[i])
            &&& new == old
        },
        None => if any_active(old) {
            r == Err::<Taken, Failure>(plain(Reason::TaskActive)) && new == old
        } else {
            &&& r matches Ok(taken)
            &&& taken.fresh
            &&& exists|task: BatchIncreaseTask|
                taken.task.copies(task) && new == #[trigger] enlisted(old, task)
        },
    }
}

impl TradingService {
    /// Whether nothing but the tasks differs.
    pub open spec fn only_tasks(self, old: TradingService) -> bool {
        self == (TradingService { batch_tasks: self.batch_tasks, ..old })
    }

    /// Puts a task on the list, unless the same is underway or another task
    /// holds the desk.
    fn take_on(&mut self, task: BatchIncreaseTask) -> (r: Result<Taken, Failure>)
        requires
            old(self).wf(),
        ensures
            final(self).wf(),
            final(self).only_tasks(*old(self)),
            admitted(r, final(self).batch_tasks@, old(self).batch_tasks@, task.action@, task.token@),
            (r is Ok && r->Ok_0.fresh) ==> r->Ok_0.task.copies(task),
    {
        if let Some(i) = find_underway(&self.batch_tasks, task.action.as_str(), task.token.as_str()) {
            return Ok(Taken { task: self.batch_tasks[i].clone(), fresh: false });
        }
        if is_any_active(&self.batch_tasks) {
            return Err(Failure::new(Reason::TaskActive));
        }
        let copy = task.clone();
        let ghost given = task;
        proof {
            lemma_enlist_keeps_one_active(self.batch_tasks@, task);
        }
        enlist(&mut self.batch_tasks, task);
        proof {
            assert(copy.copies(given));
        }
        Ok(Taken { task: copy, fresh: true })
    }

    /// How a batch increase is run: with orders of its own where its spread is
    /// guarded and the desk trades for real.
    pub fn increase_kind(&self, request: &BatchIncreaseRequest) -> (kind: BatchKind)
        ensures
            kind == (if request.spread_guard && self.config.trading_mode is Live {
                BatchKind::Guarded
            } else {
                BatchKind::Stepwise
            }),
    {
        if request.spread_guard && matches!(self.config.trading_mode, TradingMode::Live) {
            BatchKind::Guarded
        } else {
            BatchKind::Stepwise
        }
    }

    /// How a batch reduction is run: with orders of its own where it must not
    /// lose and the desk trades for real.
    pub fn reduction_kind(&self, request: &BatchReduceRequest) -> (kind: BatchKind)
        ensures
            kind == (if request.no_loss_guard && self.config.trading_mode is Live {
                BatchKind::Guarded
            } else {
                BatchKind::Stepwise
            }),
    {
        if request.no_loss_guard && matches!(self.config.trading_mode, TradingMode::Live) {
            BatchKind::Guarded
        } else {
            BatchKind::Stepwise
        }
    }

    /// Takes on a batch increase.
    pub fn start_batch_increase(
        &mut self,
        request: &BatchIncreaseRequest,
        snapshot: &OpportunitiesResponse,
        id: String,
        now: i64,
    ) -> (r: Result<Taken, Failure>)
        requires
            old(self).wf(),
        ensures
            final(self).wf(),
            *final(self) == (TradingService {
                batch_tasks: final(self).batch_tasks,
                managed_symbols: final(self).managed_symbols,
                ..*old(self)
            }),
            match (increase_fault(*request), resolved(*snapshot, request.opportunity_id@)) {
                (Some(reason), _) => r == Err::<Taken, Failure>(plain(reason)) && *final(self) == *old(self),
                (None, None) => r == Err::<Taken, Failure>(plain(Reason::OpportunityGone)) && *final(self)
                    == *old(self),
                (None, Some(opportunity)) => if !opportunity.execution_supported {
                    r == Err::<Taken, Failure>(plain(Reason::ObservationOnly)) && *final(self) == *old(self)
                } else {
                    &&& added(
                        final(self).managed_symbols@,
                        old(self).managed_symbols@,
                        upper(trimmed(opportunity.long.symbol@)),
                    )
                    &&& admitted(
                        r,
                        final(self).batch_tasks@,
                        old(self).batch_tasks@,
                        "increase"@,
                        opportunity.token.symbol@,
                    )
                    &&& (r is Ok && r->Ok_0.fresh) ==> is_increase_task(
                        r->Ok_0.task,
                        *request,
                        opportunity,
                        id,
                        now,
                    )
                },
            },
    {
        if let Err(failure) = check_increase(request) {
            return Err(failure);
        }
        let opportunity = match resolve_opportunity(snapshot, request.opportunity_id.as_str()) {
            Ok(opportunity) => opportunity,
            Err(failure) => return Err(failure),
        };
        if !opportunity.execution_supported {
            return Err(Failure::new(Reason::ObservationOnly));
        }
        self.remember_managed_symbol(opportunity.long.symbol.as_str());
        let threshold = if request.spread_guard {
            match request.spread_threshold {
                Some(t) => Some(t),
                None => Some(opportunity.spread),
            }
        } else {
            None
        };
        let total_batches: usize = if request.spread_guard {
            0
        } else {
            request.target_notional_usdt.div(request.order_notional_usdt).ceil().to_unsigned(u32::MAX) as usize
        };
        let task = BatchIncreaseTask {
            id,
            action: "increase".to_owned(),
            status: "queued".to_owned(),
            token: opportunity.token.symbol.clone(),
            long_exchange: opportunity.long.exchange.clone(),
            short_exchange: opportunity.short.exchange.clone(),
            target_notional_usdt: request.target_notional_usdt,
            order_notional_usdt: if request.spread_guard {
                Double { bits: ZERO }
            } else {
                request.order_notional_usdt
            },
            interval_seconds: if request.spread_guard {
                Double { bits: QUARTER }
            } else {
                request.interval_seconds
            },
            leverage: Some(request.leverage),
            spread_guard: request.spread_guard,
            spread_threshold: threshold,
            current_spread: Some(opportunity.spread),
            effective_spread_threshold: threshold,
            cumulative_filled_spread: None,
            spread_wait_count: 0,
            no_loss_guard: false,
            current_close_pnl_usdt: None,
            completed_notional_usdt: Double { bits: ZERO },
            completed_batches: 0,
            total_batches,
            started_at: now,
            updated_at: now,
            cancel_requested: false,
            error: None,
            current_position: None,
            logs: Vec::new(),
        };
        self.take_on(task)
    }

    /// Takes on a batch reduction of one of the positions that are held.
    pub fn start_batch_reduce(
        &mut self,
        request: &BatchReduceRequest,
        positions: &Vec<Position>,
        id: String,
        now: i64,
    ) -> (r: Result<Taken, Failure>)
        requires
            old(self).wf(),
        ensures
            final(self).wf(),
            final(self).only_tasks(*old(self)),
            match position_at(positions@, request.position_id@) {
                None => r == Err::<Taken, Failure>(plain(Reason::PositionNotFound)) && *final(self)
                    == *old(self),
                Some(i) => match reduce_fault(
                    *request,
                    positions@[i],
                    old(self).config.position_tolerance_usdt,
                ) {
                    Some(reason) => r == Err::<Taken, Failure>(plain(reason)) && *final(self) == *old(self),
                    None => {
                        &&& admitted(
                            r,
                            final(self).batch_tasks@,
                            old(self).batch_tasks@,
                            "reduce"@,
                            positions@[i].token@,
                        )
                        &&& (r is Ok && r->Ok_0.fresh) ==> is_reduce_task(
                            r->Ok_0.task,
                            *request,
                            asked(*request, positions@[i]),
                            positions@[i],
                            id,
                            now,
                        )
                    },
                },
            },
    {
        let position = match find_position(positions, request.position_id.as_str()) {
            Some(i) => &positions[i],
            None => return Err(Failure::new(Reason::PositionNotFound)),
        };
        let target = match check_reduce(request, position, self.config.position_tolerance_usdt) {
            Ok(target) => target,
            Err(failure) => return Err(failure),
        };
        let total_batches: usize = if request.no_loss_guard {
            0
        } else {
            target.div(request.order_notional_usdt).ceil().to_unsigned(u32::MAX) as usize
        };
        let task = BatchIncreaseTask {
            id,
            action: "reduce".to_owned(),
            status: "queued".to_owned(),
            token: position.token.clone(),
            long_exchange: position.long.exchange.clone(),
            short_exchange: position.short.exchange.clone(),
            target_notional_usdt: target,
            order_notional_usdt: if request.no_loss_guard {
                Double { bits: ZERO }
            } else {
                request.order_notional_usdt
            },
            interval_seconds: if request.no_loss_guard {
                Double { bits: QUARTER }
            } else {
                request.interval_seconds
            },
            leverage: None,
            spread_guard: false,
            spread_threshold: if request.no_loss_guard {
                request.close_spread_threshold
            } else {
                None
            },
            current_spread: None,
            effective_spread_threshold: None,
            cumulative_filled_spread: None,
            spread_wait_count: 0,
            no_loss_guard: request.no_loss_guard,
            current_close_pnl_usdt: None,
            completed_notional_usdt: Double { bits: ZERO },
            completed_batches: 0,
            total_batches,
            started_at: now,
            updated_at: now,
            cancel_requested: false,
            error: None,
            current_position: None,
            logs: Vec::new(),
        };
        self.take_on(task)
    }

    /// A task by its identifier.
    pub fn batch_task(&self, id: &str) -> (r: Result<BatchIncreaseTask, Failure>)
        ensures
            match task_at(self.batch_tasks@, id@) {
                Some(i) => r matches Ok(task) && task.copies(self.batch_tasks@[i]),
                None => r == Err::<BatchIncreaseTask, Failure>(plain(Reason::TaskNotFound)),
            },
    {
        match find_task(&self.batch_tasks, id) {
            Some(i) => Ok(self.batch_tasks[i].clone()),
            None => Err(Failure::new(Reason::TaskNotFound)),
        }
    }

    /// Whether tasks are those of the desk, the newest first.
    pub open spec fn lists_tasks(self, tasks: Seq<BatchIncreaseTask>, order: Seq<usize>) -> bool {
        &&& is_stable_order(
            order,
            Seq::new(
                self.batch_tasks@.len(),
                |i: int| (-(self.batch_tasks@[i].started_at as int)) as i128,
            ),
        )
        &&& tasks.len() == order.len()
        &&& forall|i: int|
            0 <= i < tasks.len() ==> (#[trigger] tasks[i]).copies(self.batch_tasks@[order[i] as int])
    }

    /// The tasks, the newest first.
    pub fn batch_tasks(&self) -> (tasks: Vec<BatchIncreaseTask>)
        ensures
            exists|order: Seq<usize>| self.lists_tasks(tasks@, order),
    {
        let mut keys: Vec<i128> = Vec::new();
        let mut i: usize = 0;
        while i < self.batch_tasks.len()
            invariant
                i <= self.batch_tasks@.len(),
                keys@.len() == i,
                forall|k: int|
                    0 <= k < i ==> #[trigger] keys@[k] == (-(self.batch_tasks@[k].started_at as int)) as i128,
            decreases self.batch_tasks@.len() - i,
        {
            keys.push(-(self.batch_tasks[i].started_at as i128));
            i = i + 1;
        }
        let order = stable_order(&keys);
        proof {
            assert(keys@ =~= Seq::new(
                self.batch_tasks@.len(),
                |i: int| (-(self.batch_tasks@[i].started_at as int)) as i128,
            ));
        }
        let mut tasks: Vec<BatchIncreaseTask> = Vec::new();
        let mut k: usize = 0;
        while k < order.len()
            invariant
                k <= order@.len(),
                tasks@.len() == k,
                is_stable_order(order@, keys@),
                keys@.len() == self.batch_tasks@.len(),
                forall|i: int|
                    0 <= i < k ==> (#[trigger] tasks@[i]).copies(self.batch_tasks@[order@[i] as int]),
            decreases order@.len() - k,
        {
            tasks.push(self.batch_tasks[order[k]].clone());
            k = k + 1;
        }
        proof {
            assert(self.lists_tasks(tasks@, order@));
        }
        tasks
    }

    /// Asks a task to stop. It ends by itself at its next step.
    pub fn cancel_batch_task(&mut self, id: &str, now: i64) -> (r: Result<BatchIncreaseTask, Failure>)
        requires
            old(self).wf(),
        ensures
            final(self).wf(),
            final(self).only_tasks(*old(self)),
            match task_at(old(self).batch_tasks@, id@) {
                None => r == Err::<BatchIncreaseTask, Failure>(plain(Reason::TaskNotFound)) && *final(self)
                    == *old(self),
                Some(i) => {
                    let before = old(self).batch_tasks@[i];
                    &&& r matches Ok(task)
                    &&& if before.status@ == "queued"@ || before.status@ == "running"@ {
                        &&& final(self).batch_tasks@.len() == old(self).batch_tasks@.len()
                        &&& forall|k: int|
                            0 <= k < old(self).batch_tasks@.len() && k != i ==> #[trigger] final(self).batch_tasks@[k] == old(self).batch_tasks@[k]
                        &&& final(self).batch_tasks@[i] == (BatchIncreaseTask {
                            status: final(self).batch_tasks@[i].status,
                            cancel_requested: true,
                            updated_at: now,
                            ..before
                        })
                        &&& final(self).batch_tasks@[i].status@ == "cancelling"@
                        &&& task.copies(final(self).batch_tasks@[i])
                    } else {
                        *final(self) == *old(self) && task.copies(before)
                    }
                },
            },
    {
        let i = match find_task(&self.batch_tasks, id) {
            Some(i) => i,
            None => return Err(Failure::new(Reason::TaskNotFound)),
        };
        let stoppable: bool = same(self.batch_tasks[i].status.as_str(), "queued") || same(
            self.batch_tasks[i].status.as_str(),
            "running",
        );
        if stoppable {
            let ghost before = self.batch_tasks@;
            let mut task = self.batch_tasks.remove(i);
            proof {
                assert(task == before[i as int]);
            }
            task.cancel_requested = true;
            task.status = "cancelling".to_owned();
            task.updated_at = now;
            let copy = task.clone();
            let ghost changed = task;
            self.batch_tasks.insert(i, task);
            proof {
                assert(self.batch_tasks@ =~= before.update(i as int, changed));
                lemma_update_keeps_one_active(before, i as int, changed);
            }
            return Ok(copy);
        }
        Ok(self.batch_tasks[i].clone())
    }
}

/// How a batch task is run.
#[derive(Clone, Copy, Debug, PartialEq, Eq, Structural)]
pub enum BatchKind {
    /// With limit orders of its own, under a guard.
    Guarded,
    /// In whole trades, one after another.
    Stepwise,
}

/// Where a batch task stands.
#[derive(Clone, Copy, Debug, PartialEq, Eq, Structural)]
pub enum BatchStage {
    /// Between two steps.
    Head,
    /// The quote of the next step.
    Quote,
    /// The next step.
    Step,
    Completed,
    Cancelled,
    Failed,
}

/// Whether a task is told how its run ended.
pub open spec fn ends_as(task: BatchIncreaseTask, stage: BatchStage) -> bool {
    match stage {
        BatchStage::Completed => task.status@ == "completed"@,
        BatchStage::Cancelled => task.status@ == "cancelled"@,
        BatchStage::Failed => task.status@ == "failed"@,
        _ => true,
    }
}

/// The run of a batch increase in equal steps, or against the top of the book
/// where the spread is guarded but nothing is sent.
pub struct IncreaseRun {
    pub offer: Opportunity,
    pub opportunity_id: String,
    pub stage: BatchStage,
    pub target: Double,
    pub order_notional: Double,
    pub leverage: u8,
    pub spread_guard: bool,
    pub threshold: Double,
    pub base_notional: Double,
    pub completed: Double,
    pub batch: usize,
    /// The quote of the step at hand.
    pub quote: Option<Opportunity>,
}

/// What a batch increase asks for next.
#[derive(Debug)]
pub enum IncreaseAction {
    /// Look whether the task was cancelled.
    Look,
    /// Find a fresh quote of the route.
    FindQuote,
    /// Take the quote that the task was taken on with.
    TakeOffer,
    /// Open this much on a quote.
    Open { quote: Opportunity, request: OpenTradeRequest },
    /// End the task.
    Conclude,
    /// The task has ended.
    Stop,
}

/// What to do once a step has been answered.
pub enum BatchOutcome {
    /// Go on at once.
    Continue,
    /// Go on after the interval of the task.
    Pause,
    /// Go on after a poll interval.
    Poll,
    /// The task has failed.
    Stop,
}

/// Whether a target has not been reached.
pub open spec fn short_of_target(completed: Double, target: Double) -> bool {
    completed.add_spec(Double { bits: THOUSANDTH }).lt_spec(target)
}

/// Whether a failure only means that the spread was not there.
pub open spec fn only_waits(message: Seq<char>) -> bool {
    occurs(message, "SPREAD_WAIT"@) || occurs(message, "SPREAD_NO_FILL"@)
}

impl IncreaseRun {
    /// A step is taken only while one is due, on a quote; the run is completed
    /// only where none is.
    pub open spec fn wf(self) -> bool {
        &&& self.stage is Quote || self.stage is Step ==> self.due()
        &&& self.stage is Step ==> self.quote is Some
        &&& self.stage is Completed ==> !self.due()
        &&& (Double { bits: ZERO }).le_spec(self.target) ==> self.completed.le_spec(self.target)
    }

    /// A run that has not begun, on top of what is held already.
    pub fn new(offer: Opportunity, request: &BatchIncreaseRequest, held: Option<&Position>) -> (run: IncreaseRun)
        ensures
            run.wf(),
            run.offer == offer,
            run.opportunity_id@ == request.opportunity_id@,
            run.stage is Head,
            run.target == request.target_notional_usdt,
            run.order_notional == request.order_notional_usdt,
            run.leverage == request.leverage,
            run.spread_guard == request.spread_guard,
            run.threshold == insisted(request.spread_threshold, offer.spread),
            run.base_notional == (match held {
                Some(position) => position.notional_usdt,
                None => Double { bits: ZERO },
            }),
            run.completed == (Double { bits: ZERO }),
            run.batch == 0,
            run.quote is None,
    {
        let threshold = match request.spread_threshold {
            Some(t) => t,
            None => offer.spread,
        };
        IncreaseRun {
            offer,
            opportunity_id: request.opportunity_id.clone(),
            stage: BatchStage::Head,
            target: request.target_notional_usdt,
            order_notional: request.order_notional_usdt,
            leverage: request.leverage,
            spread_guard: request.spread_guard,
            threshold,
            base_notional: match held {
                Some(position) => position.notional_usdt,
                None => Double { bits: ZERO },
            },
            completed: Double { bits: ZERO },
            batch: 0,
            quote: None,
        }
    }

    /// Whether another step is due.
    pub open spec fn due(self) -> bool {
        short_of_target(self.completed, self.target) && !(self.spread_guard && self.target.sub_spec(
            self.completed,
        ).le_spec(Double { bits: TEN }))
    }

    pub fn unfinished(&self) -> (b: bool)
        ensures
            b == self.due(),
    {
        self.completed.add(Double { bits: THOUSANDTH }).lt(self.target) && !(self.spread_guard && self.target.sub(
            self.completed,
        ).le(Double { bits: TEN }))
    }

    /// How much the next step opens.
    pub open spec fn step_notional(self, quote: Opportunity) -> Double {
        let remaining = self.target.sub_spec(self.completed);
        if self.spread_guard {
            top_notional(quote).min_spec(remaining)
        } else {
            self.order_notional.min_spec(remaining)
        }
    }

    /// The trade of a step on its quote.
    pub open spec fn opens(self, request: OpenTradeRequest, quote: Opportunity) -> bool {
        &&& request.opportunity_id@ == self.opportunity_id@
        &&& request.notional_usdt == self.step_notional(quote)
        &&& request.leverage == self.leverage
        &&& request.spread_guard == self.spread_guard
        &&& request.spread_threshold == Some(self.threshold)
    }

    fn next_notional(&self, quote: &Opportunity) -> (r: Double)
        ensures
            r == self.step_notional(*quote),
    {
        let remaining = self.target.sub(self.completed);
        if self.spread_guard {
            executable_top_notional(quote).min(remaining)
        } else {
            self.order_notional.min(remaining)
        }
    }

    /// What comes next. Without a guard the quote is the offer that the task was
    /// taken on with; with one it is a fresh quote.
    pub fn next(&self) -> (action: IncreaseAction)
        requires
            self.wf(),
        ensures
            match self.stage {
                BatchStage::Head => if self.due() {
                    action is Look
                } else {
                    action is Conclude
                },
                BatchStage::Quote => if self.spread_guard {
                    action is FindQuote
                } else {
                    action is TakeOffer
                },
                BatchStage::Step => action matches IncreaseAction::Open { quote, request } && quote.copies(
                    self.quote->0,
                ) && self.opens(request, self.quote->0),
                _ => action is Stop,
            },
    {
        match self.stage {
            BatchStage::Head => if self.unfinished() {
                IncreaseAction::Look
            } else {
                IncreaseAction::Conclude
            },
            BatchStage::Quote => if self.spread_guard {
                IncreaseAction::FindQuote
            } else {
                IncreaseAction::TakeOffer
            },
            BatchStage::Step => match &self.quote {
                Some(q) => IncreaseAction::Open {
                    quote: q.clone(),
                    request: OpenTradeRequest {
                        opportunity_id: self.opportunity_id.clone(),
                        notional_usdt: self.next_notional(q),
                        leverage: self.leverage,
                        spread_guard: self.spread_guard,
                        spread_threshold: Some(self.threshold),
                    },
                },
                None => IncreaseAction::Stop,
            },
            BatchStage::Completed => IncreaseAction::Stop,
            BatchStage::Cancelled => IncreaseAction::Stop,
            BatchStage::Failed => IncreaseAction::Stop,
        }
    }

    /// Ends the task where it was cancelled.
    pub fn look(&mut self, task: &mut BatchIncreaseTask, now: i64)
        requires
            old(self).wf(),
            old(self).stage is Head,
            old(self).due(),
        ensures
            final(self).wf(),
            ends_as(*final(task), final(self).stage),
            if old(task).cancel_requested {
                &&& restated(*final(task), *old(task), "cancelled"@, now)
                &&& *final(self) == (IncreaseRun { stage: BatchStage::Cancelled, ..*old(self) })
            } else {
                &&& *final(task) == *old(task)
                &&& *final(self) == (IncreaseRun { stage: BatchStage::Quote, ..*old(self) })
            },
    {
        if batch_cancelled(Some(&*task)) {
            set_status(task, "cancelled", now);
            self.stage = BatchStage::Cancelled;
        } else {
            self.stage = BatchStage::Quote;
        }
    }

    /// Ends the task that no step is due for.
    pub fn conclude(&mut self, task: &mut BatchIncreaseTask, now: i64)
        requires
            old(self).wf(),
            old(self).stage is Head,
            !old(self).due(),
        ensures
            final(self).wf(),
            ends_as(*final(task), final(self).stage),
            *final(self) == (IncreaseRun { stage: BatchStage::Completed, ..*old(self) }),
            restated(*final(task), *old(task), "completed"@, now),
    {
        set_status(task, "completed", now);
        self.stage = BatchStage::Completed;
    }

    /// What is decided about a quote: to wait, or to take a step on it.
    pub open spec fn decided(
        self,
        new: IncreaseRun,
        outcome: BatchOutcome,
        task: BatchIncreaseTask,
        new_task: BatchIncreaseTask,
        q: Opportunity,
        now: i64,
    ) -> bool {
        let seen = if self.spread_guard {
            BatchIncreaseTask { current_spread: Some(q.spread), updated_at: now, ..task }
        } else {
            task
        };
        if self.spread_guard && !open_allowed(q.spread, self.threshold) {
            &&& outcome is Poll
            &&& new == (IncreaseRun { stage: BatchStage::Head, ..self })
            &&& new_task == waited(seen, None, now)
        } else if self.step_notional(q).lt_spec(Double { bits: TEN }) {
            &&& outcome is Poll
            &&& new == (IncreaseRun { stage: BatchStage::Head, batch: bumped(self.batch), ..self })
            &&& new_task == waited(seen, None, now)
        } else {
            &&& outcome is Continue
            &&& new == (IncreaseRun {
                stage: BatchStage::Step,
                batch: bumped(self.batch),
                quote: Some(q),
                ..self
            })
            &&& new_task == seen
        }
    }

    fn decide(&mut self, task: &mut BatchIncreaseTask, q: Opportunity, now: i64) -> (outcome: BatchOutcome)
        requires
            old(self).wf(),
            old(self).stage is Quote,
        ensures
            final(self).wf(),
            old(self).decided(*final(self), outcome, *old(task), *final(task), q, now),
    {
        self.stage = BatchStage::Head;
        if self.spread_guard {
            task.current_spread = Some(q.spread);
            task.updated_at = now;
            if !spread_guard_allows(q.spread, self.threshold) {
                record_spread_wait(task, None, now);
                return BatchOutcome::Poll;
            }
        }
        self.batch = bump(self.batch);
        if self.next_notional(&q).lt(Double { bits: TEN }) {
            record_spread_wait(task, None, now);
            return BatchOutcome::Poll;
        }
        self.stage = BatchStage::Step;
        self.quote = Some(q);
        BatchOutcome::Continue
    }

    /// Decides about a fresh quote, or about one that could not be had.
    pub fn on_quote(&mut self, task: &mut BatchIncreaseTask, quote: Option<Opportunity>, now: i64) -> (outcome:
        BatchOutcome)
        requires
            old(self).wf(),
            old(self).stage is Quote,
            old(self).spread_guard,
        ensures
            final(self).wf(),
            match quote {
                None => {
                    &&& outcome is Poll
                    &&& *final(self) == (IncreaseRun { stage: BatchStage::Head, ..*old(self) })
                    &&& *final(task) == *old(task)
                },
                Some(q) => old(self).decided(*final(self), outcome, *old(task), *final(task), q, now),
            },
    {
        match quote {
            Some(q) => self.decide(task, q, now),
            None => {
                self.stage = BatchStage::Head;
                BatchOutcome::Poll
            },
        }
    }

    /// Decides about the offer that the task was taken on with.
    pub fn take_offer(&mut self, task: &mut BatchIncreaseTask, now: i64) -> (outcome: BatchOutcome)
        requires
            old(self).wf(),
            old(self).stage is Quote,
            !old(self).spread_guard,
        ensures
            final(self).wf(),
            exists|q: Opportunity| #[trigger]
                q.copies(old(self).offer) && old(self).decided(
                    *final(self),
                    outcome,
                    *old(task),
                    *final(task),
                    q,
                    now,
                ),
    {
        let q = self.offer.clone();
        let ghost seen = q;
        let outcome = self.decide(task, q, now);
        proof {
            assert(seen.copies(old(self).offer));
        }
        outcome
    }

    /// How much is open after a step: what the position has gained, never less
    /// than nothing and never more than the target.
    pub open spec fn progress(self, response: TradeResponse) -> Double {
        response.position.notional_usdt.sub_spec(self.base_notional).max_spec(Double { bits: ZERO }).min_spec(
            self.target,
        )
    }

    /// Takes in a step that went through.
    pub fn on_opened(&mut self, task: &mut BatchIncreaseTask, response: &TradeResponse, now: i64) -> (outcome:
        BatchOutcome)
        requires
            old(self).wf(),
            old(self).stage is Step,
        ensures
            final(self).wf(),
            *final(self) == (IncreaseRun {
                stage: BatchStage::Head,
                completed: old(self).progress(*response),
                ..*old(self)
            }),
            *final(task) == (BatchIncreaseTask {
                completed_notional_usdt: final(self).completed.min_spec(old(task).target_notional_usdt),
                completed_batches: old(self).batch,
                current_position: Some(response.position),
                logs: final(task).logs,
                updated_at: now,
                ..*old(task)
            }),
            exists|lines: Seq<BatchExecutionLog>| #[trigger]
                are_batch_logs(
                    lines,
                    old(self).quote->0,
                    old(self).batch,
                    *response,
                    old(self).step_notional(old(self).quote->0),
                    now,
                ) && final(task).logs@ == appended(old(task).logs@, lines),
            outcome == (if !old(self).spread_guard && short_of_target(final(self).completed, old(self).target) {
                BatchOutcome::Pause
            } else {
                BatchOutcome::Continue
            }),
    {
        let lines = match &self.quote {
            Some(quote) => {
                let step_notional = self.next_notional(quote);
                batch_logs(quote, self.batch, response, step_notional, now)
            },
            None => Vec::new(),
        };
        self.stage = BatchStage::Head;
        self.completed = response.position.notional_usdt.sub(self.base_notional).max(Double { bits: ZERO }).min(
            self.target,
        );
        task.completed_notional_usdt = self.completed.min(task.target_notional_usdt);
        task.completed_batches = self.batch;
        task.current_position = Some(response.position.clone());
        append_logs(&mut task.logs, lines);
        task.updated_at = now;
        if !self.spread_guard && self.completed.add(Double { bits: THOUSANDTH }).lt(self.target) {
            BatchOutcome::Pause
        } else {
            BatchOutcome::Continue
        }
    }

    /// Takes in a step that failed: a guarded task waits where only the spread
    /// was missing, and fails otherwise.
    pub fn on_refused(&mut self, task: &mut BatchIncreaseTask, failure: &Failure, now: i64) -> (outcome: BatchOutcome)
        requires
            old(self).wf(),
            old(self).stage is Step,
        ensures
            final(self).wf(),
            ends_as(*final(task), final(self).stage),
            if old(self).spread_guard && only_waits(failure.chain()) {
                &&& outcome is Poll
                &&& *final(self) == (IncreaseRun {
                    stage: BatchStage::Head,
                    batch: if old(self).batch == 0 {
                        0
                    } else {
                        (old(self).batch - 1) as usize
                    },
                    ..*old(self)
                })
                &&& *final(task) == (BatchIncreaseTask { error: None, ..waited(*old(task), None, now) })
            } else {
                &&& outcome is Stop
                &&& *final(self) == (IncreaseRun { stage: BatchStage::Failed, ..*old(self) })
                &&& failed(*final(task), *old(task), old(self).batch, failure.chain(), now)
            },
    {
        let message = failure.detail();
        if self.spread_guard && (contains(message.as_str(), "SPREAD_WAIT") || contains(
            message.as_str(),
            "SPREAD_NO_FILL",
        )) {
            if self.batch > 0 {
                self.batch = self.batch - 1;
            }
            record_spread_wait(task, None, now);
            task.error = None;
            self.stage = BatchStage::Head;
            return BatchOutcome::Poll;
        }
        self.stage = BatchStage::Failed;
        fail_batch_task(task, self.batch, message, now);
        BatchOutcome::Stop
    }
}

/// The run of a batch reduction in equal steps.
pub struct ReductionRun {
    pub position: Position,
    pub stage: BatchStage,
    pub target: Double,
    pub order_notional: Double,
    pub close_all: bool,
    pub completed: Double,
    pub batch: usize,
}

/// What a batch reduction asks for next.
#[derive(Clone, Copy, Debug, PartialEq, Eq, Structural)]
pub enum ReductionAction {
    /// Look whether the task was cancelled.
    Look,
    /// Close what is left.
    Close,
    /// Reduce by this much.
    Reduce(Double),
    /// End the task.
    Conclude,
    /// The task has ended.
    Stop,
}

impl ReductionRun {
    /// A step is taken only while one is due; the run is completed only where
    /// none is.
    pub open spec fn wf(self) -> bool {
        &&& self.stage is Step ==> self.due()
        &&& self.stage is Completed ==> !self.due()
        &&& !(self.stage is Quote)
    }

    /// Whether another step is due.
    pub open spec fn due(self) -> bool {
        short_of_target(self.completed, self.target)
    }

    pub fn new(position: Position, target: Double, order_notional: Double, close_all: bool) -> (run: ReductionRun)
        ensures
            run.wf(),
            run.position == position,
            run.stage is Head,
            run.target == target,
            run.order_notional == order_notional,
            run.close_all == close_all,
            run.completed == (Double { bits: ZERO }),
            run.batch == 0,
    {
        ReductionRun {
            position,
            stage: BatchStage::Head,
            target,
            order_notional,
            close_all,
            completed: Double { bits: ZERO },
            batch: 0,
        }
    }

    pub fn unfinished(&self) -> (b: bool)
        ensures
            b == self.due(),
    {
        self.completed.add(Double { bits: THOUSANDTH }).lt(self.target)
    }

    /// Whether the next step takes all that is left.
    pub open spec fn closing(self) -> bool {
        self.close_all && self.target.sub_spec(self.completed).le_spec(self.order_notional)
    }

    /// How much the next step takes.
    pub open spec fn step_notional(self) -> Double {
        self.order_notional.min_spec(self.target.sub_spec(self.completed))
    }

    /// What comes next.
    pub fn next(&self) -> (action: ReductionAction)
        requires
            self.wf(),
        ensures
            action == (match self.stage {
                BatchStage::Head => if self.due() {
                    ReductionAction::Look
                } else {
                    ReductionAction::Conclude
                },
                BatchStage::Step => if self.closing() {
                    ReductionAction::Close
                } else {
                    ReductionAction::Reduce(self.step_notional())
                },
                _ => ReductionAction::Stop,
            }),
    {
        match self.stage {
            BatchStage::Head => if self.unfinished() {
                ReductionAction::Look
            } else {
                ReductionAction::Conclude
            },
            BatchStage::Step => {
                let remaining = self.target.sub(self.completed);
                if self.close_all && remaining.le(self.order_notional) {
                    ReductionAction::Close
                } else {
                    ReductionAction::Reduce(self.order_notional.min(remaining))
                }
            },
            _ => ReductionAction::Stop,
        }
    }

    /// Ends the task where it was cancelled; else the next step begins.
    pub fn look(&mut self, task: &mut BatchIncreaseTask, now: i64)
        requires
            old(self).wf(),
            old(self).stage is Head,
            old(self).due(),
        ensures
            final(self).wf(),
            ends_as(*final(task), final(self).stage),
            if old(task).cancel_requested {
                &&& restated(*final(task), *old(task), "cancelled"@, now)
                &&& *final(self) == (ReductionRun { stage: BatchStage::Cancelled, ..*old(self) })
            } else {
                &&& *final(task) == *old(task)
                &&& *final(self) == (ReductionRun {
                    stage: BatchStage::Step,
                    batch: bumped(old(self).batch),
                    ..*old(self)
                })
            },
    {
        if batch_cancelled(Some(&*task)) {
            set_status(task, "cancelled", now);
            self.stage = BatchStage::Cancelled;
        } else {
            self.batch = bump(self.batch);
            self.stage = BatchStage::Step;
        }
    }

    /// Ends the task that no step is due for.
    pub fn conclude(&mut self, task: &mut BatchIncreaseTask, now: i64)
        requires
            old(self).wf(),
            old(self).stage is Head,
            !old(self).due(),
        ensures
            final(self).wf(),
            ends_as(*final(task), final(self).stage),
            *final(self) == (ReductionRun { stage: BatchStage::Completed, ..*old(self) }),
            restated(*final(task), *old(task), "completed"@, now),
    {
        set_status(task, "completed", now);
        self.stage = BatchStage::Completed;
    }

    /// Takes in a step that went through. The result says whether to wait
    /// before the next one.
    pub fn on_reduced(&mut self, task: &mut BatchIncreaseTask, response: &TradeResponse, now: i64) -> (outcome:
        BatchOutcome)
        requires
            old(self).wf(),
            old(self).stage is Step,
        ensures
            final(self).wf(),
            ({
                let closing = old(self).closing();
                let step = old(self).step_notional();
                let completed = if closing {
                    old(task).target_notional_usdt
                } else {
                    old(self).completed.add_spec(step)
                };
                &&& !closing ==> adds(final(self).completed, old(self).completed, step)
                &&& !final(self).completed.nan() && !old(task).target_notional_usdt.nan()
                    ==> final(task).completed_notional_usdt.le_spec(old(task).target_notional_usdt)
                &&& *final(self) == (ReductionRun { stage: BatchStage::Head, completed, ..*old(self) })
                &&& *final(task) == (BatchIncreaseTask {
                    completed_notional_usdt: completed.min_spec(old(task).target_notional_usdt),
                    completed_batches: old(self).batch,
                    current_position: if closing {
                        None
                    } else {
                        Some(response.position)
                    },
                    logs: final(task).logs,
                    updated_at: now,
                    ..*old(task)
                })
                &&& exists|lines: Seq<BatchExecutionLog>| #[trigger]
                    are_reduce_logs(lines, old(self).position, old(self).batch, *response, step, now) && final(task).logs@
                        == appended(old(task).logs@, lines)
                &&& outcome == (if short_of_target(completed, old(self).target) {
                    BatchOutcome::Pause
                } else {
                    BatchOutcome::Continue
                })
            }),
    {
        let remaining = self.target.sub(self.completed);
        let closing: bool = self.close_all && remaining.le(self.order_notional);
        let step = self.order_notional.min(remaining);
        let lines = batch_reduce_logs(&self.position, self.batch, response, step, now);
        self.stage = BatchStage::Head;
        proof {
            lemma_adds(self.completed, step);
        }
        if closing {
            self.completed = task.target_notional_usdt;
        } else {
            self.completed = self.completed.add(step);
        }
        task.completed_notional_usdt = self.completed.min(task.target_notional_usdt);
        task.completed_batches = self.batch;
        task.current_position = if closing {
            None
        } else {
            Some(response.position.clone())
        };
        append_logs(&mut task.logs, lines);
        task.updated_at = now;
        if self.completed.add(Double { bits: THOUSANDTH }).lt(self.target) {
            BatchOutcome::Pause
        } else {
            BatchOutcome::Continue
        }
    }

    /// Takes in a step that failed: so has the task.
    pub fn on_refused(&mut self, task: &mut BatchIncreaseTask, failure: &Failure, now: i64)
        requires
            old(self).wf(),
            old(self).stage is Step,
        ensures
            final(self).wf(),
            *final(self) == (ReductionRun { stage: BatchStage::Failed, ..*old(self) }),
            failed(*final(task), *old(task), old(self).batch, failure.chain(), now),
    {
        self.stage = BatchStage::Failed;
        fail_batch_task(task, self.batch, failure.detail(), now);
    }
}

/// A batch task is completed only where no step is due: an increase has then
/// reached its target, up to ten USDT where its spread is guarded, and a
/// reduction its own.
pub proof fn lemma_completed_reached_its_target(increase: IncreaseRun, reduction: ReductionRun)
    requires
        increase.wf(),
        reduction.wf(),
    ensures
        increase.stage is Completed ==> !short_of_target(increase.completed, increase.target) || (
        increase.spread_guard && increase.target.sub_spec(increase.completed).le_spec(Double { bits: TEN })),
        (Double { bits: ZERO }).le_spec(increase.target) ==> increase.completed.le_spec(increase.target),
        reduction.stage is Completed ==> !short_of_target(reduction.completed, reduction.target),
{
}

} // verus!
