//! Trading on the funding of one token: around every full hour, leave where the
//! next settlement no longer pays, and enter where it does.

use crate::market::projection::{hour_start, period_start, HOUR_MILLIS};
use crate::models::{
    copy_text, BatchIncreaseRequest, BatchIncreaseTask, BatchReduceRequest, Opportunity, Position,
};
use crate::num::constants::{
    FIVE_THOUSAND, HUNDRED, ONE, TEN, THIRTY, THREE, TWO_THOUSANDTHS, YEAR_HOURS,
};
use crate::num::decimal::{fixed, fixed_signed, fixed_text, signed_text};
use crate::num::Double;
use crate::spread_strategy::{find_token, is_task_active, position_of, task_active};
use crate::text::{join, same};
use crate::num::about::{fine, one};
use crate::num::double::size;
use crate::yields::{lemma_a_full_yield_is_a_year_of_hours, lemma_entry_threshold};
use vstd::prelude::*;
use vstd::string::StringExecFns;

verus! {

/// The yield below which a position is left: 100%.
pub const EXIT_APY_THRESHOLD: u64 = ONE;

/// What an hour has to pay for an entry: more than 0.2%.
pub const ENTRY_HOURLY_RETURN_THRESHOLD: u64 = TWO_THOUSANDTHS;

/// The size of an entry on each leg.
pub const ENTRY_TARGET_USDT: u64 = FIVE_THOUSAND;

pub const ENTRY_ORDER_USDT: u64 = HUNDRED;

pub const ENTRY_INTERVAL_SECONDS: u64 = THIRTY;

pub const ENTRY_LEVERAGE: u8 = 5;

pub const EXIT_INTERVAL_SECONDS: u64 = THREE;

/// How often it is looked whether the tasks of the token have stopped.
pub const STOP_LOOKS: u8 = 40;

/// How often it is looked whether the task of an exit has stopped.
pub const CLEANUP_LOOKS: u8 = 20;

/// The token that is traded.
pub open spec fn traded_token() -> Seq<char> {
    "DEXE"@
}

/// Where the strategy stands.
#[derive(Debug)]
pub struct FundingCycleStrategyStatus {
    pub enabled: bool,
    pub symbol: String,
    pub state: String,
    pub last_exit_check_hour: Option<i64>,
    pub last_entry_check_hour: Option<i64>,
    pub exit_requested_hour: Option<i64>,
    pub cleanup_checked_hour: Option<i64>,
    pub entry_task_id: Option<String>,
    pub exit_task_id: Option<String>,
    pub signal_hourly_return: Option<Double>,
    pub signal_apy: Option<Double>,
    pub signal_direction: Option<String>,
    pub last_action_at: Option<i64>,
    pub last_action: Option<String>,
    pub error: Option<String>,
}

impl Clone for FundingCycleStrategyStatus {
    fn clone(&self) -> (r: Self)
        ensures
            r == *self,
    {
        FundingCycleStrategyStatus {
            enabled: self.enabled,
            symbol: self.symbol.clone(),
            state: self.state.clone(),
            last_exit_check_hour: self.last_exit_check_hour,
            last_entry_check_hour: self.last_entry_check_hour,
            exit_requested_hour: self.exit_requested_hour,
            cleanup_checked_hour: self.cleanup_checked_hour,
            entry_task_id: copy_text(&self.entry_task_id),
            exit_task_id: copy_text(&self.exit_task_id),
            signal_hourly_return: self.signal_hourly_return,
            signal_apy: self.signal_apy,
            signal_direction: copy_text(&self.signal_direction),
            last_action_at: self.last_action_at,
            last_action: copy_text(&self.last_action),
            error: copy_text(&self.error),
        }
    }
}

/// Whether this is where the strategy stands at first.
pub open spec fn fresh(status: FundingCycleStrategyStatus, enabled: bool) -> bool {
    &&& status.symbol@ == traded_token()
    &&& status.state@ == if enabled {
        "waiting"@
    } else {
        "disabled"@
    }
    &&& status == (FundingCycleStrategyStatus {
        enabled,
        symbol: status.symbol,
        state: status.state,
        last_exit_check_hour: None,
        last_entry_check_hour: None,
        exit_requested_hour: None,
        cleanup_checked_hour: None,
        entry_task_id: None,
        exit_task_id: None,
        signal_hourly_return: None,
        signal_apy: None,
        signal_direction: None,
        last_action_at: None,
        last_action: None,
        error: None,
    })
}

impl FundingCycleStrategyStatus {
    pub fn new(enabled: bool) -> (status: FundingCycleStrategyStatus)
        ensures
            fresh(status, enabled),
    {
        FundingCycleStrategyStatus {
            enabled,
            symbol: "DEXE".to_owned(),
            state: if enabled {
                "waiting".to_owned()
            } else {
                "disabled".to_owned()
            },
            last_exit_check_hour: None,
            last_entry_check_hour: None,
            exit_requested_hour: None,
            cleanup_checked_hour: None,
            entry_task_id: None,
            exit_task_id: None,
            signal_hourly_return: None,
            signal_apy: None,
            signal_direction: None,
            last_action_at: None,
            last_action: None,
            error: None,
        }
    }
}

/// What is due in an hour.
#[derive(Clone, Copy, Debug, PartialEq, Eq, Structural)]
pub enum CycleCheck {
    Nothing,
    /// See whether the next settlement still pays what is held.
    Exit,
    /// See that a requested exit has left nothing behind.
    Cleanup,
    /// See whether the next settlement pays an entry.
    Entry,
}

/// The hour that a time lies in.
pub open spec fn hour_of(now: i64) -> int {
    now as int / HOUR_MILLIS as int
}

/// How many seconds of its hour have passed at a time.
pub open spec fn second_of(now: i64) -> int {
    (now - period_start(now as int, HOUR_MILLIS as int)) / 1000
}

/// Whether an hour is the one that is kept.
pub open spec fn is_hour(kept: Option<i64>, hour: int) -> bool {
    kept is Some && kept->0 == hour
}

/// What is due at a time: each check once an hour, in its own quarter of a
/// minute.
pub open spec fn due_at(status: FundingCycleStrategyStatus, now: i64) -> CycleCheck {
    let hour = hour_of(now);
    let second = second_of(now);
    if 1 <= second < 15 && !is_hour(status.last_exit_check_hour, hour) {
        CycleCheck::Exit
    } else if 45 <= second < 60 && is_hour(status.exit_requested_hour, hour) && !is_hour(
        status.cleanup_checked_hour,
        hour,
    ) {
        CycleCheck::Cleanup
    } else if 60 <= second < 75 && !is_hour(status.last_entry_check_hour, hour) {
        CycleCheck::Entry
    } else {
        CycleCheck::Nothing
    }
}

/// The direction of a route.
pub open spec fn direction_text(long: Seq<char>, short: Seq<char>) -> Seq<char> {
    "LONG "@ + long + " / SHORT "@ + short
}

fn write_direction(long: &str, short: &str) -> (s: String)
    ensures
        s@ == direction_text(long@, short@),
{
    let mut s = join("LONG ", long);
    s.append(" / SHORT ");
    s.append(short);
    s
}

/// A number as a percentage with so many decimals.
pub open spec fn percent_text(x: Double, decimals: nat) -> Seq<char> {
    fixed_text(x.mul_spec(Double { bits: HUNDRED }), decimals)
}

/// A number as a percentage with its sign.
pub open spec fn signed_percent(x: Double, decimals: nat) -> Seq<char> {
    signed_text(x.mul_spec(Double { bits: HUNDRED }), decimals)
}

/// What is said of a task that entered or left a position: whether it got
/// through, and what follows.
pub open spec fn task_notice(
    task: BatchIncreaseTask,
    done: Seq<char>,
    after_done: Seq<char>,
    undone: Seq<char>,
    after_undone: Seq<char>,
) -> Seq<char> {
    if task.status@ == "completed"@ {
        done + fixed_text(task.completed_notional_usdt, 2) + after_done
    } else {
        undone + (if task.status@ == "failed"@ {
            "失败"@
        } else {
            "已取消"@
        }) + "</b>\n"@ + (match task.error {
            Some(text) => text@,
            None => "未提供错误信息"@,
        }) + after_undone
    }
}

fn write_task_notice(
    task: &BatchIncreaseTask,
    done: &str,
    after_done: &str,
    undone: &str,
    after_undone: &str,
) -> (s: String)
    ensures
        s@ == task_notice(*task, done@, after_done@, undone@, after_undone@),
{
    if same(task.status.as_str(), "completed") {
        let mut s = join(done, fixed(task.completed_notional_usdt, 2).as_str());
        s.append(after_done);
        return s;
    }
    let mut s = join(
        undone,
        if same(task.status.as_str(), "failed") {
            "失败"
        } else {
            "已取消"
        },
    );
    s.append("</b>\n");
    match &task.error {
        Some(text) => {
            s.append(text.as_str());
        },
        None => {
            s.append("未提供错误信息");
        },
    }
    s.append(after_undone);
    proof {
        assert(s@ =~= task_notice(*task, done@, after_done@, undone@, after_undone@));
    }
    s
}

/// Whether a task has come to an end.
pub open spec fn task_over(task: BatchIncreaseTask) -> bool {
    task.status@ == "completed"@ || task.status@ == "failed"@ || task.status@ == "cancelled"@
}

fn is_task_over(task: &BatchIncreaseTask) -> (b: bool)
    ensures
        b == task_over(*task),
{
    same(task.status.as_str(), "completed") || same(task.status.as_str(), "failed") || same(
        task.status.as_str(),
        "cancelled",
    )
}

/// Whether the strategy waits after an action.
pub open spec fn waits(
    new: FundingCycleStrategyStatus,
    old: FundingCycleStrategyStatus,
    action: Seq<char>,
    now: i64,
) -> bool {
    &&& new.state@ == "waiting"@
    &&& new.last_action is Some
    &&& (new.last_action->0)@ == action
    &&& new == (FundingCycleStrategyStatus {
        state: new.state,
        last_action_at: Some(now),
        last_action: new.last_action,
        ..old
    })
}

/// Whether what a route pays was put down.
pub open spec fn signalled(
    new: FundingCycleStrategyStatus,
    old: FundingCycleStrategyStatus,
    hourly_return: Double,
    apy: Double,
    direction: Seq<char>,
) -> bool {
    &&& new.signal_direction is Some
    &&& (new.signal_direction->0)@ == direction
    &&& new == (FundingCycleStrategyStatus {
        signal_hourly_return: Some(hourly_return),
        signal_apy: Some(apy),
        signal_direction: new.signal_direction,
        ..old
    })
}

/// The yearly return of an hourly one.
pub open spec fn yearly(hourly_return: Double) -> Double {
    hourly_return.mul_spec(Double { bits: YEAR_HOURS })
}

/// The size of an order of an exit: a tenth of the position, ten at least.
pub open spec fn exit_order(notional: Double) -> Double {
    notional.div_spec(Double { bits: TEN }).max_spec(Double { bits: TEN })
}

/// Whether this asks for leaving a position at the market.
pub open spec fn asks_exit(request: BatchReduceRequest, position: Position) -> bool {
    &&& request.position_id@ == position.id@
    &&& request == (BatchReduceRequest {
        position_id: request.position_id,
        target_notional_usdt: position.notional_usdt,
        close_all: true,
        order_notional_usdt: exit_order(position.notional_usdt).min_spec(position.notional_usdt),
        interval_seconds: Double { bits: EXIT_INTERVAL_SECONDS },
        no_loss_guard: false,
        close_spread_threshold: None,
        minimum_roi: None,
    })
}

/// Whether this asks for the entry of a route.
pub open spec fn asks_cycle_entry(request: BatchIncreaseRequest, offer: Opportunity) -> bool {
    &&& request.opportunity_id@ == offer.id@
    &&& request == (BatchIncreaseRequest {
        opportunity_id: request.opportunity_id,
        target_notional_usdt: Double { bits: ENTRY_TARGET_USDT },
        order_notional_usdt: Double { bits: ENTRY_ORDER_USDT },
        interval_seconds: Double { bits: ENTRY_INTERVAL_SECONDS },
        leverage: ENTRY_LEVERAGE,
        spread_guard: false,
        spread_threshold: None,
    })
}

/// Whether a task trades the token and has not come to an end.
pub open spec fn own_active(task: BatchIncreaseTask) -> bool {
    task.token@ == traded_token() && task_active(task)
}

/// Whether one of some tasks trades the token and has not come to an end.
pub open spec fn any_own_active(tasks: Seq<BatchIncreaseTask>) -> bool {
    exists|i: int| 0 <= i < tasks.len() && own_active(#[trigger] tasks[i])
}

/// Whether one of some tasks has not come to an end.
pub open spec fn any_active(tasks: Seq<BatchIncreaseTask>) -> bool {
    exists|i: int| 0 <= i < tasks.len() && task_active(#[trigger] tasks[i])
}

/// The names of the tasks that have to be cancelled before an exit.
pub open spec fn to_cancel(tasks: Seq<BatchIncreaseTask>) -> Seq<Seq<char>>
    decreases tasks.len(),
{
    if tasks.len() == 0 {
        Seq::empty()
    } else {
        let before = to_cancel(tasks.drop_last());
        if own_active(tasks.last()) && tasks.last().status@ != "cancelling"@ {
            before.push(tasks.last().id@)
        } else {
            before
        }
    }
}

/// The names of the tasks that have to be cancelled before an exit.
pub fn stop_active_symbol_tasks(tasks: &Vec<BatchIncreaseTask>) -> (ids: Vec<String>)
    ensures
        crate::text::texts(ids@) == to_cancel(tasks@),
{
    let mut ids: Vec<String> = Vec::new();
    let mut i: usize = 0;
    proof {
        assert(tasks@.take(0) =~= Seq::<BatchIncreaseTask>::empty());
        assert(crate::text::texts(ids@) =~= Seq::<Seq<char>>::empty());
    }
    while i < tasks.len()
        invariant
            i <= tasks@.len(),
            crate::text::texts(ids@) == to_cancel(tasks@.take(i as int)),
        decreases tasks@.len() - i,
    {
        proof {
            assert(tasks@.take(i as int + 1).drop_last() =~= tasks@.take(i as int));
            assert(tasks@.take(i as int + 1).last() == tasks@[i as int]);
        }
        let task = &tasks[i];
        if same(task.token.as_str(), "DEXE") && is_task_active(task) && !same(task.status.as_str(), "cancelling") {
            let ghost before = ids@;
            ids.push(task.id.clone());
            proof {
                assert(crate::text::texts(ids@) =~= crate::text::texts(before).push(task.id@));
            }
        }
        i = i + 1;
    }
    proof {
        assert(tasks@.take(tasks@.len() as int) =~= tasks@);
    }
    ids
}

/// Whether one of some tasks trades the token and has not come to an end.
pub fn has_active_symbol_task(tasks: &Vec<BatchIncreaseTask>) -> (b: bool)
    ensures
        b == any_own_active(tasks@),
{
    let mut i: usize = 0;
    while i < tasks.len()
        invariant
            i <= tasks@.len(),
            forall|k: int| 0 <= k < i ==> !own_active(#[trigger] tasks@[k]),
        decreases tasks@.len() - i,
    {
        if same(tasks[i].token.as_str(), "DEXE") && is_task_active(&tasks[i]) {
            return true;
        }
        i = i + 1;
    }
    false
}

/// Whether the tasks of the token have stopped, as far as the given number of
/// looks tells, the last of which saw the latest tasks; nothing, while it has to
/// be looked again. After the last look they have stopped only if none was at
/// work to begin with.
pub fn stop_verdict(first: &Vec<BatchIncreaseTask>, latest: &Vec<BatchIncreaseTask>, looks: u8) -> (r: Option<bool>)
    ensures
        r == (if !any_own_active(latest@) {
            Some(true)
        } else if looks < STOP_LOOKS {
            None
        } else {
            Some(!any_own_active(first@))
        }),
{
    if !has_active_symbol_task(latest) {
        return Some(true);
    }
    if looks < STOP_LOOKS {
        return None;
    }
    Some(!has_active_symbol_task(first))
}

/// Whether the wait for the task of an exit that was cancelled is over after the
/// given number of looks, the last of which saw the task, where it is known: it
/// has stopped, or that was the last look.
pub fn cleanup_settled(task: Option<&BatchIncreaseTask>, looks: u8) -> (b: bool)
    ensures
        b == ((task matches Some(t) && !task_active(*t)) || looks >= CLEANUP_LOOKS),
{
    let stopped: bool = match task {
        Some(t) => !is_task_active(t),
        None => false,
    };
    stopped || looks >= CLEANUP_LOOKS
}

/// Whether one of some tasks has not come to an end.
pub fn has_active_batch_task(tasks: &Vec<BatchIncreaseTask>) -> (b: bool)
    ensures
        b == any_active(tasks@),
{
    let mut i: usize = 0;
    while i < tasks.len()
        invariant
            i <= tasks@.len(),
            forall|k: int| 0 <= k < i ==> !task_active(#[trigger] tasks@[k]),
        decreases tasks@.len() - i,
    {
        if is_task_active(&tasks[i]) {
            return true;
        }
        i = i + 1;
    }
    false
}

/// The strategy.
pub struct FundingCycleStrategyService {
    pub state: FundingCycleStrategyStatus,
    pub enabled: bool,
}

/// What is done about a position when the next settlement is looked at.
pub enum ExitVerdict {
    /// Nothing is held.
    Flat,
    /// The position is kept.
    Hold,
    /// The position is left, once the tasks of the token have stopped.
    Leave,
}

impl FundingCycleStrategyService {
    /// A strategy that goes on from what was kept.
    pub fn new(kept: Option<FundingCycleStrategyStatus>, enabled: bool) -> (service: FundingCycleStrategyService)
        ensures
            service.enabled == enabled,
            service.state.enabled == enabled,
            !enabled ==> service.state.state@ == "disabled"@,
            match kept {
                None => fresh(service.state, enabled),
                Some(old) => service.state == (FundingCycleStrategyStatus {
                    enabled,
                    state: if enabled {
                        old.state
                    } else {
                        service.state.state
                    },
                    ..old
                }),
            },
    {
        let mut state = match kept {
            Some(old) => old,
            None => FundingCycleStrategyStatus::new(enabled),
        };
        state.enabled = enabled;
        if !enabled {
            state.state = "disabled".to_owned();
        }
        FundingCycleStrategyService { state, enabled }
    }

    /// Whether the strategy runs.
    pub fn spawn(&self) -> (runs: bool)
        ensures
            runs == self.enabled,
    {
        self.enabled
    }

    /// Where the strategy stands.
    pub fn status(&self) -> (status: FundingCycleStrategyStatus)
        ensures
            status == self.state,
    {
        self.state.clone()
    }

    /// What is due at a time.
    pub fn tick(&self, now: i64) -> (check: CycleCheck)
        ensures
            check == due_at(self.state, now),
    {
        let start: i128 = hour_start(now);
        let second: i128 = (now as i128 - start) / 1000;
        let hour: i128 = start / HOUR_MILLIS;
        proof {
            vstd::arithmetic::div_mod::lemma_div_multiples_vanish(
                now as int / HOUR_MILLIS as int,
                HOUR_MILLIS as int,
            );
        }
        if 1 <= second && second < 15 && !Self::kept_hour(self.state.last_exit_check_hour, hour) {
            return CycleCheck::Exit;
        }
        if 45 <= second && second < 60 && Self::kept_hour(self.state.exit_requested_hour, hour)
            && !Self::kept_hour(self.state.cleanup_checked_hour, hour) {
            return CycleCheck::Cleanup;
        }
        if 60 <= second && second < 75 && !Self::kept_hour(self.state.last_entry_check_hour, hour) {
            return CycleCheck::Entry;
        }
        CycleCheck::Nothing
    }

    fn kept_hour(kept: Option<i64>, hour: i128) -> (b: bool)
        ensures
            b == is_hour(kept, hour as int),
    {
        match kept {
            Some(h) => h as i128 == hour,
            None => false,
        }
    }

    /// Waits after an action.
    pub fn set_waiting(&mut self, action: String, now: i64)
        ensures
            final(self).enabled == old(self).enabled,
            waits(final(self).state, old(self).state, action@, now),
    {
        self.state.state = "waiting".to_owned();
        self.state.last_action_at = Some(now);
        self.state.last_action = Some(action);
    }

    /// Puts down what a route pays.
    pub fn record_signal(&mut self, hourly_return: Double, apy: Double, direction: String)
        ensures
            final(self).enabled == old(self).enabled,
            signalled(final(self).state, old(self).state, hourly_return, apy, direction@),
    {
        self.state.signal_hourly_return = Some(hourly_return);
        self.state.signal_apy = Some(apy);
        self.state.signal_direction = Some(direction);
    }

    /// Puts down what went wrong.
    pub fn record_error(&mut self, error: String)
        ensures
            *final(self) == (FundingCycleStrategyService {
                state: FundingCycleStrategyStatus { error: Some(error), ..old(self).state },
                ..*old(self)
            }),
    {
        self.state.error = Some(error);
    }

    /// Begins the check for an exit.
    pub fn begin_exit_check(&mut self, hour: i64)
        ensures
            *final(self) == (FundingCycleStrategyService {
                state: FundingCycleStrategyStatus {
                    last_exit_check_hour: Some(hour),
                    error: None,
                    ..old(self).state
                },
                ..*old(self)
            }),
    {
        self.state.last_exit_check_hour = Some(hour);
        self.state.error = None;
    }

    /// Begins the check for an entry.
    pub fn begin_entry_check(&mut self, hour: i64)
        ensures
            *final(self) == (FundingCycleStrategyService {
                state: FundingCycleStrategyStatus {
                    last_entry_check_hour: Some(hour),
                    error: None,
                    ..old(self).state
                },
                ..*old(self)
            }),
    {
        self.state.last_entry_check_hour = Some(hour);
        self.state.error = None;
    }

    /// Judges the position of the token by what the next hour pays it.
    pub fn check_exit(&mut self, position: Option<&Position>, hourly_return: Double, now: i64) -> (verdict: ExitVerdict)
        ensures
            final(self).enabled == old(self).enabled,
            match position {
                None => verdict is Flat && waits(
                    final(self).state,
                    old(self).state,
                    "整点退出检查：当前空仓"@,
                    now,
                ),
                Some(p) => {
                    let apy = yearly(hourly_return);
                    let direction = direction_text(p.long.exchange@, p.short.exchange@);
                    if (Double { bits: EXIT_APY_THRESHOLD }).le_spec(apy) {
                        &&& verdict is Hold
                        &&& exists|mid: FundingCycleStrategyStatus| #[trigger]
                            signalled(mid, old(self).state, hourly_return, apy, direction) && waits(
                                final(self).state,
                                mid,
                                "持仓方向 APY "@ + percent_text(apy, 2) + "% ≥ 100%，继续持有"@,
                                now,
                            )
                    } else {
                        verdict is Leave && signalled(
                            final(self).state,
                            old(self).state,
                            hourly_return,
                            apy,
                            direction,
                        )
                    }
                },
            },
            hourly_return.finite() && yearly(hourly_return).finite() ==> {
                &&& verdict is Hold ==> fine() * (one() - hourly_return.value() * 8760) <= size(
                    hourly_return.value() * 8760,
                ) + fine()
                &&& verdict is Leave ==> fine() * (hourly_return.value() * 8760 - one()) <= size(
                    hourly_return.value() * 8760,
                ) + fine()
            },
    {
        proof {
            if hourly_return.finite() && yearly(hourly_return).finite() {
                lemma_a_full_yield_is_a_year_of_hours(hourly_return);
            }
        }
        let position = match position {
            None => {
                self.set_waiting("整点退出检查：当前空仓".to_owned(), now);
                return ExitVerdict::Flat;
            },
            Some(p) => p,
        };
        let apy = hourly_return.mul(Double { bits: YEAR_HOURS });
        let direction = write_direction(position.long.exchange.as_str(), position.short.exchange.as_str());
        self.record_signal(hourly_return, apy, direction);
        let ghost mid = self.state;
        if apy.ge(Double { bits: EXIT_APY_THRESHOLD }) {
            let mut action = join(
                "持仓方向 APY ",
                fixed(apy.mul(Double { bits: HUNDRED }), 2).as_str(),
            );
            action.append("% ≥ 100%，继续持有");
            self.set_waiting(action, now);
            proof {
                assert(signalled(
                    mid,
                    old(self).state,
                    hourly_return,
                    yearly(hourly_return),
                    direction_text(position.long.exchange@, position.short.exchange@),
                ));
            }
            return ExitVerdict::Hold;
        }
        ExitVerdict::Leave
    }

    /// Goes on with an exit once the tasks of the token were told to stop: the
    /// request that leaves the position that is still there by then.
    pub fn confirm_exit(&mut self, stopped: bool, position: Option<&Position>, now: i64) -> (r: Option<
        BatchReduceRequest,
    >)
        ensures
            final(self).enabled == old(self).enabled,
            if !stopped {
                &&& r is None
                &&& final(self).state.error is Some
                &&& (final(self).state.error->0)@ == "退出信号已触发，但 DEXE 批量任务未能及时停止"@
                &&& final(self).state == (FundingCycleStrategyStatus {
                    error: final(self).state.error,
                    ..old(self).state
                })
            } else {
                match position {
                    None => r is None && waits(
                        final(self).state,
                        old(self).state,
                        "退出信号触发时仓位已经关闭"@,
                        now,
                    ),
                    Some(p) => {
                        &&& r is Some
                        &&& asks_exit(r->0, *p)
                        &&& *final(self) == *old(self)
                    },
                }
            },
    {
        if !stopped {
            self.record_error("退出信号已触发，但 DEXE 批量任务未能及时停止".to_owned());
            return None;
        }
        match position {
            None => {
                self.set_waiting("退出信号触发时仓位已经关闭".to_owned(), now);
                None
            },
            Some(p) => Some(Self::exit_request(p)),
        }
    }

    /// The request that leaves a position.
    pub fn exit_request(position: &Position) -> (request: BatchReduceRequest)
        ensures
            asks_exit(request, *position),
    {
        let order = position.notional_usdt.div(Double { bits: TEN }).max(Double { bits: TEN });
        BatchReduceRequest {
            position_id: position.id.clone(),
            target_notional_usdt: position.notional_usdt,
            close_all: true,
            order_notional_usdt: order.min(position.notional_usdt),
            interval_seconds: Double { bits: EXIT_INTERVAL_SECONDS },
            no_loss_guard: false,
            close_spread_threshold: None,
            minimum_roi: None,
        }
    }

    /// Takes in the task that leaves a position of a size, and tells of it.
    pub fn on_exit_started(
        &mut self,
        hour: i64,
        task_id: String,
        hourly_return: Double,
        notional: Double,
        now: i64,
    ) -> (notice: String)
        ensures
            final(self).enabled == old(self).enabled,
            final(self).state.state@ == "exiting"@,
            final(self).state.last_action is Some,
            (final(self).state.last_action->0)@ == "APY "@ + percent_text(yearly(hourly_return), 2)
                + "% < 100%，批量市价全平，每单约 $"@ + fixed_text(exit_order(notional), 2) + " / 3s"@,
            final(self).state == (FundingCycleStrategyStatus {
                state: final(self).state.state,
                exit_requested_hour: Some(hour),
                exit_task_id: Some(task_id),
                last_action_at: Some(now),
                last_action: final(self).state.last_action,
                ..old(self).state
            }),
            notice@ == "🔴 <b>DEXE 周期策略退出</b>\n持仓方向小时收益："@ + signed_percent(hourly_return, 4)
                + "%\nAPY："@ + signed_percent(yearly(hourly_return), 2) + "%\n批量市价全平：每单约 $"@
                + fixed_text(exit_order(notional), 2) + " / 3s"@,
    {
        let apy = hourly_return.mul(Double { bits: YEAR_HOURS });
        let order = notional.div(Double { bits: TEN }).max(Double { bits: TEN });
        let hundred = Double { bits: HUNDRED };
        let mut action = join("APY ", fixed(apy.mul(hundred), 2).as_str());
        action.append("% < 100%，批量市价全平，每单约 $");
        action.append(fixed(order, 2).as_str());
        action.append(" / 3s");
        self.state.state = "exiting".to_owned();
        self.state.exit_requested_hour = Some(hour);
        self.state.exit_task_id = Some(task_id);
        self.state.last_action_at = Some(now);
        self.state.last_action = Some(action);
        let mut notice = join(
            "🔴 <b>DEXE 周期策略退出</b>\n持仓方向小时收益：",
            fixed_signed(hourly_return.mul(hundred), 4).as_str(),
        );
        notice.append("%\nAPY：");
        notice.append(fixed_signed(apy.mul(hundred), 2).as_str());
        notice.append("%\n批量市价全平：每单约 $");
        notice.append(fixed(order, 2).as_str());
        notice.append(" / 3s");
        notice
    }

    /// The task of an exit that has to be cancelled before what it left behind is
    /// looked at; `task` is how that task stands, where that is known.
    pub fn cleanup_cancels(&self, task: Option<&BatchIncreaseTask>) -> (id: Option<String>)
        ensures
            id == (if task is Some && task_active(*task->0) {
                self.state.exit_task_id
            } else {
                None
            }),
    {
        match task {
            Some(t) => if is_task_active(t) {
                copy_text(&self.state.exit_task_id)
            } else {
                None
            },
            None => None,
        }
    }

    /// Takes in what was left of a position after an exit, if anything was, which
    /// has been closed by then.
    pub fn cleanup_exit(&mut self, hour: i64, residual: Option<Double>, now: i64)
        ensures
            final(self).enabled == old(self).enabled,
            final(self).state.state@ == "waiting"@,
            final(self).state.last_action is Some,
            (final(self).state.last_action->0)@ == (match residual {
                Some(notional) => "整点 +45s 检测到残仓 $"@ + fixed_text(notional, 2) + "，已市价全平"@,
                None => "整点 +45s 复核：已完全平仓"@,
            }),
            final(self).state == (FundingCycleStrategyStatus {
                state: final(self).state.state,
                cleanup_checked_hour: Some(hour),
                exit_task_id: None,
                last_action_at: Some(now),
                last_action: final(self).state.last_action,
                ..old(self).state
            }),
    {
        let action = match residual {
            Some(notional) => {
                let mut s = join("整点 +45s 检测到残仓 $", fixed(notional, 2).as_str());
                s.append("，已市价全平");
                s
            },
            None => "整点 +45s 复核：已完全平仓".to_owned(),
        };
        self.state.cleanup_checked_hour = Some(hour);
        self.state.exit_task_id = None;
        self.state.state = "waiting".to_owned();
        self.state.last_action_at = Some(now);
        self.state.last_action = Some(action);
    }

    /// Whether an entry may be looked for: nothing of the token is held, and no
    /// task is at work.
    pub fn check_entry(&mut self, positions: &Vec<Position>, tasks: &Vec<BatchIncreaseTask>, now: i64) -> (go: bool)
        ensures
            final(self).enabled == old(self).enabled,
            go == (position_of(positions@, traded_token()) is None && !any_active(tasks@)),
            if position_of(positions@, traded_token()) is Some {
                waits(final(self).state, old(self).state, "整点 +1m 入场检查：已有 DEXE 仓位"@, now)
            } else if any_active(tasks@) {
                waits(final(self).state, old(self).state, "整点 +1m 入场检查：已有批量任务运行"@, now)
            } else {
                *final(self) == *old(self)
            },
    {
        if find_token(positions, "DEXE").is_some() {
            self.set_waiting("整点 +1m 入场检查：已有 DEXE 仓位".to_owned(), now);
            return false;
        }
        if has_active_batch_task(tasks) {
            self.set_waiting("整点 +1m 入场检查：已有批量任务运行".to_owned(), now);
            return false;
        }
        true
    }

    /// Judges a route by what the next hour pays it: the request that enters it,
    /// where it pays enough.
    pub fn judge_entry(&mut self, offer: Option<&Opportunity>, now: i64) -> (r: Option<BatchIncreaseRequest>)
        ensures
            final(self).enabled == old(self).enabled,
            match offer {
                None => r is None && waits(
                    final(self).state,
                    old(self).state,
                    "下一整点两腿均无可套利结算费率"@,
                    now,
                ),
                Some(o) => {
                    let direction = direction_text(o.long.exchange@, o.short.exchange@);
                    if o.funding_per_hour.le_spec(Double { bits: ENTRY_HOURLY_RETURN_THRESHOLD }) {
                        &&& r is None
                        &&& exists|mid: FundingCycleStrategyStatus| #[trigger]
                            signalled(mid, old(self).state, o.funding_per_hour, o.apy, direction) && waits(
                                final(self).state,
                                mid,
                                "小时收益 "@ + percent_text(o.funding_per_hour, 4) + "% ≤ 0.2%，不入场"@,
                                now,
                            )
                    } else {
                        &&& r is Some
                        &&& asks_cycle_entry(r->0, *o)
                        &&& signalled(
                            final(self).state,
                            old(self).state,
                            o.funding_per_hour,
                            o.apy,
                            direction,
                        )
                    }
                },
            },
            offer matches Some(o) ==> o.funding_per_hour.finite() ==> {
                &&& r is Some ==> 1000 * o.funding_per_hour.value() >= 2 * one()
                &&& r is None ==> 999 * o.funding_per_hour.value() <= 2 * one()
            },
    {
        proof {
            if offer is Some && offer->0.funding_per_hour.finite() {
                lemma_entry_threshold(offer->0.funding_per_hour);
            }
        }
        let offer = match offer {
            None => {
                self.set_waiting("下一整点两腿均无可套利结算费率".to_owned(), now);
                return None;
            },
            Some(o) => o,
        };
        let direction = write_direction(offer.long.exchange.as_str(), offer.short.exchange.as_str());
        self.record_signal(offer.funding_per_hour, offer.apy, direction);
        let ghost mid = self.state;
        if offer.funding_per_hour.le(Double { bits: ENTRY_HOURLY_RETURN_THRESHOLD }) {
            let mut action = join(
                "小时收益 ",
                fixed(offer.funding_per_hour.mul(Double { bits: HUNDRED }), 4).as_str(),
            );
            action.append("% ≤ 0.2%，不入场");
            self.set_waiting(action, now);
            proof {
                assert(signalled(
                    mid,
                    old(self).state,
                    offer.funding_per_hour,
                    offer.apy,
                    direction_text(offer.long.exchange@, offer.short.exchange@),
                ));
            }
            return None;
        }
        Some(
            BatchIncreaseRequest {
                opportunity_id: offer.id.clone(),
                target_notional_usdt: Double { bits: ENTRY_TARGET_USDT },
                order_notional_usdt: Double { bits: ENTRY_ORDER_USDT },
                interval_seconds: Double { bits: ENTRY_INTERVAL_SECONDS },
                leverage: ENTRY_LEVERAGE,
                spread_guard: false,
                spread_threshold: None,
            },
        )
    }

    /// Takes in the task that enters a route, and tells of it.
    pub fn on_entry_started(&mut self, offer: &Opportunity, task_id: String, now: i64) -> (notice: String)
        ensures
            final(self).enabled == old(self).enabled,
            final(self).state.state@ == "entering"@,
            final(self).state.last_action is Some,
            (final(self).state.last_action->0)@ == "小时收益 "@ + percent_text(offer.funding_per_hour, 4)
                + "% > 0.2%，批量市价入场 $5000"@,
            final(self).state == (FundingCycleStrategyStatus {
                state: final(self).state.state,
                entry_task_id: Some(task_id),
                last_action_at: Some(now),
                last_action: final(self).state.last_action,
                ..old(self).state
            }),
            notice@ == "🟢 <b>DEXE 周期策略入场</b>\n"@ + direction_text(
                offer.long.exchange@,
                offer.short.exchange@,
            ) + "\n下一整点小时收益："@ + signed_percent(offer.funding_per_hour, 4)
                + "%\n目标：每腿 $5000 · 5×\n批量市价：$100 / 30s"@,
    {
        let hundred = Double { bits: HUNDRED };
        let mut action = join("小时收益 ", fixed(offer.funding_per_hour.mul(hundred), 4).as_str());
        action.append("% > 0.2%，批量市价入场 $5000");
        self.state.state = "entering".to_owned();
        self.state.entry_task_id = Some(task_id);
        self.state.last_action_at = Some(now);
        self.state.last_action = Some(action);
        let direction = write_direction(offer.long.exchange.as_str(), offer.short.exchange.as_str());
        let mut notice = join("🟢 <b>DEXE 周期策略入场</b>\n", direction.as_str());
        notice.append("\n下一整点小时收益：");
        notice.append(fixed_signed(offer.funding_per_hour.mul(hundred), 4).as_str());
        notice.append("%\n目标：每腿 $5000 · 5×\n批量市价：$100 / 30s");
        notice
    }

    /// Takes in how the task that enters stands, where one does; once it is over
    /// it is told of.
    pub fn refresh_entry_task(&mut self, task: &BatchIncreaseTask) -> (notice: Option<String>)
        ensures
            final(self).enabled == old(self).enabled,
            if old(self).state.entry_task_id is Some && task_over(*task) {
                &&& notice is Some
                &&& (notice->0)@ == task_notice(
                    *task,
                    "✅ <b>DEXE 周期策略入场完成</b>\n每腿累计成交：约 $"@,
                    "\n状态：持仓中"@,
                    "⚠️ <b>DEXE 周期策略入场"@,
                    ""@,
                )
                &&& final(self).state.state@ == if task.status@ == "completed"@ {
                    "holding"@
                } else {
                    "waiting"@
                }
                &&& final(self).state == (FundingCycleStrategyStatus {
                    state: final(self).state.state,
                    entry_task_id: None,
                    error: task.error,
                    ..old(self).state
                })
            } else {
                notice is None && *final(self) == *old(self)
            },
    {
        if self.state.entry_task_id.is_none() || !is_task_over(task) {
            return None;
        }
        self.state.entry_task_id = None;
        self.state.state = if same(task.status.as_str(), "completed") {
            "holding".to_owned()
        } else {
            "waiting".to_owned()
        };
        self.state.error = copy_text(&task.error);
        Some(
            write_task_notice(
                task,
                "✅ <b>DEXE 周期策略入场完成</b>\n每腿累计成交：约 $",
                "\n状态：持仓中",
                "⚠️ <b>DEXE 周期策略入场",
                "",
            ),
        )
    }

    /// Takes in how the task that leaves stands, where one does; once it is over
    /// it is told of.
    pub fn refresh_exit_task(&mut self, task: &BatchIncreaseTask) -> (notice: Option<String>)
        ensures
            final(self).enabled == old(self).enabled,
            if old(self).state.exit_task_id is Some && task_over(*task) {
                &&& notice is Some
                &&& (notice->0)@ == task_notice(
                    *task,
                    "✅ <b>DEXE 周期策略批量退场完成</b>\n每腿累计平仓：约 $"@,
                    "\n将在整点 +45s 再次检查残仓"@,
                    "⚠️ <b>DEXE 周期策略批量退场"@,
                    "\n将在整点 +45s 尝试清理残仓"@,
                )
                &&& final(self).state.state@ == if task.status@ == "completed"@ {
                    "exit_verifying"@
                } else {
                    "waiting_cleanup"@
                }
                &&& final(self).state == (FundingCycleStrategyStatus {
                    state: final(self).state.state,
                    exit_task_id: None,
                    error: task.error,
                    ..old(self).state
                })
            } else {
                notice is None && *final(self) == *old(self)
            },
    {
        if self.state.exit_task_id.is_none() || !is_task_over(task) {
            return None;
        }
        self.state.exit_task_id = None;
        self.state.state = if same(task.status.as_str(), "completed") {
            "exit_verifying".to_owned()
        } else {
            "waiting_cleanup".to_owned()
        };
        self.state.error = copy_text(&task.error);
        Some(
            write_task_notice(
                task,
                "✅ <b>DEXE 周期策略批量退场完成</b>\n每腿累计平仓：约 $",
                "\n将在整点 +45s 再次检查残仓",
                "⚠️ <b>DEXE 周期策略批量退场",
                "\n将在整点 +45s 尝试清理残仓",
            ),
        )
    }
}

/// Once a check for an entry has begun, none is due again within that hour; the
/// same holds of the check for an exit.
pub proof fn lemma_checks_run_once_an_hour(status: FundingCycleStrategyStatus, first: i64, later: i64)
    requires
        hour_of(first) == hour_of(later),
    ensures
        is_hour(status.last_exit_check_hour, hour_of(first)) ==> due_at(status, later) != CycleCheck::Exit,
        is_hour(status.last_entry_check_hour, hour_of(first)) ==> due_at(status, later) != CycleCheck::Entry,
        is_hour(status.cleanup_checked_hour, hour_of(first)) ==> due_at(status, later) != CycleCheck::Cleanup,
{
}

/// What was left behind is looked at only in the hour in which an exit was
/// requested.
pub proof fn lemma_cleanup_follows_an_exit(status: FundingCycleStrategyStatus, now: i64)
    ensures
        due_at(status, now) == CycleCheck::Cleanup ==> is_hour(status.exit_requested_hour, hour_of(now)),
{
}

} // verus!
