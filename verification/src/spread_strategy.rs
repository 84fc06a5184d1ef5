//! Trading on price gaps that are wider than usual: enter, wait until the gap
//! closes, and leave.

use crate::models::{
    copy_text, BatchExecutionLog, BatchIncreaseRequest, BatchIncreaseTask, BatchReduceRequest, Opportunity,
    Position,
};
use crate::num::constants::{
    EPSILON, HUNDRED, HUNDREDTH, HUNDRED_MILLIONTH, MINUS_TWO_HUNDREDTHS, MINUS_ZERO, THOUSANDTH, TWO_THOUSANDTHS,
    ZERO,
};
use crate::num::decimal::{fixed, fixed_signed, fixed_text, signed_text};
use crate::num::double::{
    lemma_add_commutes, lemma_add_monotone, lemma_mul_monotone, lemma_of_int_monotone, of_int,
};
use crate::num::Double;
use crate::text::{digits, digits_text, join, same};
use vstd::prelude::*;
use vstd::string::StringExecFns;

verus! {

/// How far above its average a gap has to be: one percent.
pub const ENTRY_DEVIATION: u64 = HUNDREDTH;

/// The size of a trade on each leg.
pub const ENTRY_NOTIONAL_USDT: u64 = HUNDRED;

pub const ENTRY_LEVERAGE: u8 = 5;

/// How much the target falls every hour.
pub const ROI_STEP_PER_HOUR: u64 = TWO_THOUSANDTHS;

/// After how many hours the target is zero.
pub const ROI_FLOOR_AFTER_HOURS: i64 = 5;

/// The return below which a trade is given up.
pub const STOP_LOSS_ROI: u64 = MINUS_TWO_HUNDREDTHS;

/// How long a trade is held at most: ten hours.
pub const MAX_HOLD_MILLIS: i64 = 36000000;

/// How long no trade is entered after one: a quarter of an hour.
pub const REENTRY_COOLDOWN_MILLIS: i64 = 900000;

/// After how long the exchanges are asked for the position.
pub const POSITION_RECONCILE_REST_AFTER_MILLIS: i64 = 6000;

/// After how long a position that does not show is reported.
pub const POSITION_RECONCILE_WARN_AFTER_MILLIS: i64 = 30000;

/// How many times in a row a position has to be as expected.
pub const POSITION_RECONCILE_STABLE_SNAPSHOTS: u8 = 2;

/// The return at which a trade is left, by the hours that it was held.
pub open spec fn target_after(entry_deviation: Double, held_hours: i64) -> Double {
    if held_hours >= ROI_FLOOR_AFTER_HOURS {
        Double { bits: ZERO }
    } else {
        entry_deviation.sub_spec(
            of_int(
                if held_hours > 0 {
                    held_hours as int
                } else {
                    0
                },
            ).mul_spec(Double { bits: ROI_STEP_PER_HOUR }),
        ).max_spec(Double { bits: ZERO })
    }
}

/// The return at which a trade is left: it falls every hour, and is zero after
/// five.
pub fn take_profit_target(entry_deviation: Double, held_hours: i64) -> (r: Double)
    ensures
        r == target_after(entry_deviation, held_hours),
{
    if held_hours >= ROI_FLOOR_AFTER_HOURS {
        return Double { bits: ZERO };
    }
    let hours = Double::from_int(
        if held_hours > 0 {
            held_hours
        } else {
            0
        },
    );
    entry_deviation.sub(hours.mul(Double { bits: ROI_STEP_PER_HOUR })).max(Double { bits: ZERO })
}

/// The return at which a trade is left never rises while the trade is held,
/// never falls below zero, and is zero from the fifth hour on.
pub proof fn lemma_target_falls(entry_deviation: Double, earlier: i64, later: i64)
    requires
        earlier <= later,
    ensures
        target_after(entry_deviation, later).le_spec(target_after(entry_deviation, earlier)),
        (Double { bits: ZERO }).le_spec(target_after(entry_deviation, later)),
        later >= ROI_FLOOR_AFTER_HOURS ==> target_after(entry_deviation, later) == (Double { bits: ZERO }),
{
    let zero = Double { bits: ZERO };
    let step = Double { bits: ROI_STEP_PER_HOUR };
    let first: int = if earlier > 0 {
        earlier as int
    } else {
        0
    };
    let second: int = if later > 0 {
        later as int
    } else {
        0
    };
    lemma_of_int_monotone(first, second);
    lemma_of_int_monotone(0, second);
    lemma_mul_monotone(of_int(first), of_int(second), step);
    let x = of_int(first).mul_spec(step).neg_spec();
    let y = of_int(second).mul_spec(step).neg_spec();
    assert(y.le_spec(x));
    if !entry_deviation.add_spec(x).nan() && !entry_deviation.add_spec(y).nan() {
        lemma_add_commutes(entry_deviation, x);
        lemma_add_commutes(entry_deviation, y);
        lemma_add_monotone(y, x, entry_deviation);
    }
}

/// Whether a quantity is as expected, up to a thousandth.
pub open spec fn reconciled(actual: Double, expected: Double) -> bool {
    let tolerance = expected.abs_spec().mul_spec(Double { bits: THOUSANDTH }).max_spec(
        Double { bits: HUNDRED_MILLIONTH },
    );
    actual.sub_spec(expected).abs_spec().le_spec(tolerance)
}

/// Whether a quantity is as expected, up to a thousandth.
pub fn quantity_reconciled(actual: Double, expected: Double) -> (b: bool)
    ensures
        b == reconciled(actual, expected),
{
    let tolerance = expected.abs().mul(Double { bits: THOUSANDTH }).max(Double { bits: HUNDRED_MILLIONTH });
    actual.sub(expected).abs().le(tolerance)
}

/// How a reason for leaving is shown.
pub open spec fn reason_label(reason: Seq<char>) -> Seq<char> {
    if reason == "take_profit"@ {
        "止盈"@
    } else if reason == "stop_loss"@ {
        "止损"@
    } else if reason == "max_hold_time"@ {
        "达到最长持有时间"@
    } else if reason == "position_closed"@ {
        "仓位已在外部关闭"@
    } else {
        "市价退出"@
    }
}

/// How a reason for leaving is shown.
pub fn exit_reason_label(reason: &str) -> (label: &str)
    ensures
        label@ == reason_label(reason@),
{
    if same(reason, "take_profit") {
        "止盈"
    } else if same(reason, "stop_loss") {
        "止损"
    } else if same(reason, "max_hold_time") {
        "达到最长持有时间"
    } else if same(reason, "position_closed") {
        "仓位已在外部关闭"
    } else {
        "市价退出"
    }
}

/// A trade of the strategy.
#[derive(Debug)]
pub struct SpreadStrategyTrade {
    pub token: String,
    pub opportunity_id: String,
    pub status: String,
    pub signal_at: i64,
    pub opened_at: Option<i64>,
    pub closed_at: Option<i64>,
    pub entry_spread: Double,
    pub entry_deviation: Double,
    pub position_id: Option<String>,
    pub entry_task_id: Option<String>,
    pub exit_task_id: Option<String>,
    pub target_roi: Option<Double>,
    pub target_hour: Option<i64>,
    pub current_roi: Option<Double>,
    pub exit_reason: Option<String>,
    pub error: Option<String>,
    pub expected_long_quantity: Option<Double>,
    pub expected_short_quantity: Option<Double>,
    pub reconciliation_started_at: Option<i64>,
    pub reconciliation_stable_snapshots: u8,
    pub reconciliation_rest_refreshed: bool,
    pub entry_notified: bool,
    pub exit_notified: bool,
}

impl Clone for SpreadStrategyTrade {
    fn clone(&self) -> (r: Self)
        ensures
            r == *self,
    {
        SpreadStrategyTrade {
            token: self.token.clone(),
            opportunity_id: self.opportunity_id.clone(),
            status: self.status.clone(),
            signal_at: self.signal_at,
            opened_at: self.opened_at,
            closed_at: self.closed_at,
            entry_spread: self.entry_spread,
            entry_deviation: self.entry_deviation,
            position_id: copy_text(&self.position_id),
            entry_task_id: copy_text(&self.entry_task_id),
            exit_task_id: copy_text(&self.exit_task_id),
            target_roi: self.target_roi,
            target_hour: self.target_hour,
            current_roi: self.current_roi,
            exit_reason: copy_text(&self.exit_reason),
            error: copy_text(&self.error),
            expected_long_quantity: self.expected_long_quantity,
            expected_short_quantity: self.expected_short_quantity,
            reconciliation_started_at: self.reconciliation_started_at,
            reconciliation_stable_snapshots: self.reconciliation_stable_snapshots,
            reconciliation_rest_refreshed: self.reconciliation_rest_refreshed,
            entry_notified: self.entry_notified,
            exit_notified: self.exit_notified,
        }
    }
}

/// What the strategy has to do next.
#[derive(Clone, Copy, Debug, PartialEq, Eq, Structural)]
pub enum StrategyTick {
    /// Look for a gap to enter.
    Scan,
    /// Nothing yet.
    Wait,
    /// The last trade is done with: forget it.
    Clear,
    /// See how the entry goes.
    Entry,
    /// See whether the position is as expected; the exchanges are asked for it
    /// where `authoritative`.
    Reconcile { authoritative: bool },
    /// See whether to leave.
    Active,
    /// See how leaving at the market goes.
    MarketExit,
}

/// How long after one time another one is.
pub open spec fn elapsed(now: i64, since: i64) -> int {
    now - since
}

/// When a trade was opened, as far as is known.
pub open spec fn opened(trade: SpreadStrategyTrade) -> i64 {
    match trade.opened_at {
        Some(at) => at,
        None => trade.signal_at,
    }
}

/// What the strategy has to do next.
pub open spec fn tick_of(trade: Option<SpreadStrategyTrade>, now: i64) -> StrategyTick {
    match trade {
        None => StrategyTick::Scan,
        Some(t) => if t.status@ == "closed"@ || t.status@ == "failed"@ {
            let finished = match t.closed_at {
                Some(at) => at,
                None => t.signal_at,
            };
            if elapsed(now, finished) >= REENTRY_COOLDOWN_MILLIS {
                StrategyTick::Clear
            } else {
                StrategyTick::Wait
            }
        } else if t.status@ == "entering"@ {
            StrategyTick::Entry
        } else if t.status@ == "reconciling"@ {
            StrategyTick::Reconcile { authoritative: asks_exchanges(t, now) }
        } else if t.status@ == "active"@ {
            StrategyTick::Active
        } else if t.status@ == "market_exit"@ {
            StrategyTick::MarketExit
        } else {
            StrategyTick::Wait
        },
    }
}

/// Whether the exchanges have to be asked for the position.
pub open spec fn asks_exchanges(trade: SpreadStrategyTrade, now: i64) -> bool {
    &&& trade.reconciliation_started_at is Some
    &&& elapsed(now, trade.reconciliation_started_at->0) >= POSITION_RECONCILE_REST_AFTER_MILLIS
    &&& !trade.reconciliation_rest_refreshed
}

fn since(now: i64, at: i64) -> (r: i128)
    ensures
        r == elapsed(now, at),
{
    now as i128 - at as i128
}

/// The first position of a token.
pub open spec fn position_of(positions: Seq<Position>, token: Seq<char>) -> Option<Position>
    decreases positions.len(),
{
    if positions.len() == 0 {
        None
    } else if positions[0].token@ == token {
        Some(positions[0])
    } else {
        position_of(positions.drop_first(), token)
    }
}

/// The first position of a token.
pub fn find_token<'a>(positions: &'a Vec<Position>, token: &str) -> (r: Option<&'a Position>)
    ensures
        position_of(positions@, token@) == (match r {
            Some(p) => Some(*p),
            None => None,
        }),
{
    let mut i: usize = 0;
    proof {
        assert(positions@.skip(0) =~= positions@);
    }
    while i < positions.len()
        invariant
            i <= positions@.len(),
            position_of(positions@, token@) == position_of(positions@.skip(i as int), token@),
        decreases positions@.len() - i,
    {
        proof {
            assert(positions@.skip(i as int)[0] == positions@[i as int]);
            assert(positions@.skip(i as int).drop_first() =~= positions@.skip(i as int + 1));
        }
        if same(positions[i].token.as_str(), token) {
            return Some(&positions[i]);
        }
        i = i + 1;
    }
    None
}

/// Whether a gap is one to enter: it can be traded, it is at least one percent
/// above its average, and its token is not held.
pub open spec fn enterable(offer: Opportunity, positions: Seq<Position>) -> bool {
    &&& offer.execution_supported
    &&& (Double { bits: ENTRY_DEVIATION }).le_spec(offer.spread_vs_average)
    &&& position_of(positions, offer.token.symbol@) is None
}

/// The first gap to enter.
pub open spec fn first_enterable(offers: Seq<Opportunity>, positions: Seq<Position>) -> Option<Opportunity>
    decreases offers.len(),
{
    if offers.len() == 0 {
        None
    } else if enterable(offers[0], positions) {
        Some(offers[0])
    } else {
        first_enterable(offers.drop_first(), positions)
    }
}

fn find_enterable<'a>(offers: &'a Vec<Opportunity>, positions: &Vec<Position>) -> (r: Option<&'a Opportunity>)
    ensures
        first_enterable(offers@, positions@) == (match r {
            Some(o) => Some(*o),
            None => None,
        }),
{
    let mut i: usize = 0;
    proof {
        assert(offers@.skip(0) =~= offers@);
    }
    while i < offers.len()
        invariant
            i <= offers@.len(),
            first_enterable(offers@, positions@) == first_enterable(offers@.skip(i as int), positions@),
        decreases offers@.len() - i,
    {
        proof {
            assert(offers@.skip(i as int)[0] == offers@[i as int]);
            assert(offers@.skip(i as int).drop_first() =~= offers@.skip(i as int + 1));
        }
        let offer = &offers[i];
        if offer.execution_supported && offer.spread_vs_average.ge(Double { bits: ENTRY_DEVIATION })
            && find_token(positions, offer.token.symbol.as_str()).is_none() {
            return Some(offer);
        }
        i = i + 1;
    }
    None
}

/// Whether a trade is the one that a gap starts.
pub open spec fn starts(trade: SpreadStrategyTrade, offer: Opportunity, now: i64) -> bool {
    &&& trade.token@ == offer.token.symbol@
    &&& trade.opportunity_id@ == offer.id@
    &&& trade.status@ == "entering"@
    &&& trade == (SpreadStrategyTrade {
        token: trade.token,
        opportunity_id: trade.opportunity_id,
        status: trade.status,
        signal_at: now,
        opened_at: None,
        closed_at: None,
        entry_spread: offer.spread,
        entry_deviation: offer.spread_vs_average,
        position_id: None,
        entry_task_id: None,
        exit_task_id: None,
        target_roi: None,
        target_hour: None,
        current_roi: None,
        exit_reason: None,
        error: None,
        expected_long_quantity: None,
        expected_short_quantity: None,
        reconciliation_started_at: None,
        reconciliation_stable_snapshots: 0,
        reconciliation_rest_refreshed: false,
        entry_notified: false,
        exit_notified: false,
    })
}

/// Whether this asks for the entry of a gap: at once, and at no narrower gap.
pub open spec fn asks_entry(request: BatchIncreaseRequest, offer: Opportunity) -> bool {
    &&& request.opportunity_id@ == offer.id@
    &&& request == (BatchIncreaseRequest {
        opportunity_id: request.opportunity_id,
        target_notional_usdt: Double { bits: ENTRY_NOTIONAL_USDT },
        order_notional_usdt: Double { bits: ZERO },
        interval_seconds: Double { bits: ZERO },
        leverage: ENTRY_LEVERAGE,
        spread_guard: true,
        spread_threshold: Some(offer.spread),
    })
}

/// Whether a trade has failed of something.
pub open spec fn failed(new: SpreadStrategyTrade, old: SpreadStrategyTrade, error: Seq<char>, now: i64) -> bool {
    &&& new.status@ == "failed"@
    &&& new.error is Some
    &&& (new.error->0)@ == error
    &&& new == (SpreadStrategyTrade { status: new.status, error: new.error, closed_at: Some(now), ..old })
}

/// A trade that has failed.
pub fn fail(trade: SpreadStrategyTrade, error: String, now: i64) -> (r: SpreadStrategyTrade)
    ensures
        failed(r, trade, error@, now),
{
    let mut r = trade;
    r.status = "failed".to_owned();
    r.error = Some(error);
    r.closed_at = Some(now);
    r
}

/// How long a trade was held, in minutes.
pub open spec fn held_minutes(trade: SpreadStrategyTrade, now: i64) -> nat {
    let held = elapsed(now, opened(trade));
    (if held > 0 {
        held / 60000
    } else {
        0
    }) as nat
}

/// How a return is shown.
pub open spec fn roi_text(roi: Option<Double>) -> Seq<char> {
    match roi {
        Some(x) => signed_text(x.mul_spec(Double { bits: HUNDRED }), 3) + "%"@,
        None => "—"@,
    }
}

/// The message that a trade is over.
pub open spec fn exit_message(trade: SpreadStrategyTrade, reason: Seq<char>, now: i64) -> Seq<char> {
    let minutes = held_minutes(trade, now);
    "🔴 <b>价差策略退场完成 · "@ + trade.token@ + "</b>\n退出原因："@ + reason_label(reason) + "\n最后 ROI："@
        + roi_text(trade.current_roi) + "\n持有时间："@ + digits(minutes / 60) + " 小时 "@ + digits(minutes % 60)
        + " 分钟"@
}

/// Whether a trade is over for a reason, and this is to be told.
pub open spec fn exited(
    new: SpreadStrategyTrade,
    notice: Option<String>,
    old: SpreadStrategyTrade,
    reason: Seq<char>,
    now: i64,
) -> bool {
    &&& new.status@ == "closed"@
    &&& new.exit_reason is Some
    &&& (new.exit_reason->0)@ == reason
    &&& new == (SpreadStrategyTrade {
        status: new.status,
        exit_reason: new.exit_reason,
        closed_at: Some(now),
        exit_notified: true,
        ..old
    })
    &&& notice is Some == !old.exit_notified
    &&& notice is Some ==> (notice->0)@ == exit_message(old, reason, now)
}

/// A trade that is over.
pub fn finish_exit(trade: SpreadStrategyTrade, reason: &str, now: i64) -> (r: (SpreadStrategyTrade, Option<String>))
    ensures
        exited(r.0, r.1, trade, reason@, now),
{
    let at: i64 = match trade.opened_at {
        Some(at) => at,
        None => trade.signal_at,
    };
    let held: i128 = since(now, at);
    let minutes: u128 = if held > 0 {
        (held / 60000) as u128
    } else {
        0
    };
    let mut message = join("🔴 <b>价差策略退场完成 · ", trade.token.as_str());
    message.append("</b>\n退出原因：");
    message.append(exit_reason_label(reason));
    message.append("\n最后 ROI：");
    match trade.current_roi {
        Some(roi) => {
            let text = join(fixed_signed(roi.mul(Double { bits: HUNDRED }), 3).as_str(), "%");
            message.append(text.as_str());
        },
        None => {
            message.append("—");
        },
    }
    message.append("\n持有时间：");
    message.append(digits_text(minutes / 60).as_str());
    message.append(" 小时 ");
    message.append(digits_text(minutes % 60).as_str());
    message.append(" 分钟");
    let notice = if trade.exit_notified {
        None
    } else {
        Some(message)
    };
    let mut r = trade;
    r.status = "closed".to_owned();
    r.closed_at = Some(now);
    r.exit_reason = Some(reason.to_owned());
    r.exit_notified = true;
    (r, notice)
}

/// What was filled on one side of a task.
pub open spec fn fills_on(logs: Seq<BatchExecutionLog>, side: Seq<char>) -> Double
    decreases logs.len(),
{
    if logs.len() == 0 {
        Double { bits: MINUS_ZERO }
    } else {
        let log = logs.last();
        let before = fills_on(logs.drop_last(), side);
        if log.side@ == side && (Double { bits: ZERO }).lt_spec(log.executed_quantity) {
            before.add_spec(log.executed_quantity)
        } else {
            before
        }
    }
}

fn filled_on(logs: &Vec<BatchExecutionLog>, side: &str) -> (r: Double)
    ensures
        r == fills_on(logs@, side@),
{
    let mut r = Double { bits: MINUS_ZERO };
    let mut i: usize = 0;
    proof {
        assert(logs@.take(0) =~= Seq::<BatchExecutionLog>::empty());
    }
    while i < logs.len()
        invariant
            i <= logs@.len(),
            r == fills_on(logs@.take(i as int), side@),
        decreases logs@.len() - i,
    {
        proof {
            assert(logs@.take(i as int + 1).drop_last() =~= logs@.take(i as int));
            assert(logs@.take(i as int + 1).last() == logs@[i as int]);
        }
        if same(logs[i].side.as_str(), side) && logs[i].executed_quantity.gt(Double { bits: ZERO }) {
            r = r.add(logs[i].executed_quantity);
        }
        i = i + 1;
    }
    proof {
        assert(logs@.take(logs@.len() as int) =~= logs@);
    }
    r
}

/// Whether a trade waits for its position to be as its fills say.
pub open spec fn reconciling(
    new: SpreadStrategyTrade,
    old: SpreadStrategyTrade,
    long: Double,
    short: Double,
    now: i64,
) -> bool {
    &&& new.status@ == "reconciling"@
    &&& new == (SpreadStrategyTrade {
        status: new.status,
        expected_long_quantity: Some(long),
        expected_short_quantity: Some(short),
        reconciliation_started_at: Some(now),
        reconciliation_stable_snapshots: 0,
        reconciliation_rest_refreshed: false,
        error: None,
        ..old
    })
}

/// Whether a trade goes on with a position that is held although its task is
/// gone.
pub open spec fn resumed(new: SpreadStrategyTrade, old: SpreadStrategyTrade, position: Position) -> bool {
    &&& new.status@ == "active"@
    &&& new.position_id is Some
    &&& (new.position_id->0)@ == position.id@
    &&& new == (SpreadStrategyTrade {
        status: new.status,
        opened_at: Some(old.signal_at),
        position_id: new.position_id,
        entry_task_id: None,
        ..old
    })
}

/// What an entry that went wrong is put down to.
pub open spec fn entry_error(task: BatchIncreaseTask) -> Seq<char> {
    match task.error {
        Some(text) => text@,
        None => "entry task "@ + task.status@,
    }
}

/// Whether a trade is another one once its entry was looked at.
pub open spec fn entry_seen(
    new: SpreadStrategyTrade,
    old: SpreadStrategyTrade,
    task: Option<BatchIncreaseTask>,
    positions: Seq<Position>,
    now: i64,
) -> bool {
    match (old.entry_task_id, task) {
        (None, _) => failed(new, old, "entry task disappeared"@, now),
        (Some(_), None) => match position_of(positions, old.token@) {
            Some(position) => resumed(new, old, position),
            None => failed(new, old, "entry task disappeared"@, now),
        },
        (Some(_), Some(t)) => if t.status@ == "failed"@ || t.status@ == "cancelled"@ {
            failed(new, old, entry_error(t), now)
        } else if t.status@ != "completed"@ {
            new == old
        } else {
            let long = fills_on(t.logs@, "long"@);
            let short = fills_on(t.logs@, "short"@);
            let least = Double { bits: EPSILON };
            if long.le_spec(least) || short.le_spec(least) {
                failed(new, old, "entry completed without a complete two-leg fill ledger"@, now)
            } else {
                reconciling(new, old, long, short, now)
            }
        },
    }
}

/// Looks at the entry of a trade. The positions count where the task is gone.
pub fn monitor_entry(
    trade: SpreadStrategyTrade,
    task: Option<&BatchIncreaseTask>,
    positions: &Vec<Position>,
    now: i64,
) -> (r: SpreadStrategyTrade)
    ensures
        entry_seen(
            r,
            trade,
            match task {
                Some(t) => Some(*t),
                None => None,
            },
            positions@,
            now,
        ),
{
    if trade.entry_task_id.is_none() {
        return fail(trade, "entry task disappeared".to_owned(), now);
    }
    match task {
        None => match find_token(positions, trade.token.as_str()) {
            Some(position) => {
                let mut r = trade;
                r.status = "active".to_owned();
                r.opened_at = Some(r.signal_at);
                r.position_id = Some(position.id.clone());
                r.entry_task_id = None;
                r
            },
            None => fail(trade, "entry task disappeared".to_owned(), now),
        },
        Some(t) => {
            if same(t.status.as_str(), "failed") || same(t.status.as_str(), "cancelled") {
                let error = match &t.error {
                    Some(text) => text.clone(),
                    None => join("entry task ", t.status.as_str()),
                };
                return fail(trade, error, now);
            }
            if !same(t.status.as_str(), "completed") {
                return trade;
            }
            let long = filled_on(&t.logs, "long");
            let short = filled_on(&t.logs, "short");
            let least = Double { bits: EPSILON };
            if long.le(least) || short.le(least) {
                return fail(
                    trade,
                    "entry completed without a complete two-leg fill ledger".to_owned(),
                    now,
                );
            }
            let mut r = trade;
            r.status = "reconciling".to_owned();
            r.expected_long_quantity = Some(long);
            r.expected_short_quantity = Some(short);
            r.reconciliation_started_at = Some(now);
            r.reconciliation_stable_snapshots = 0;
            r.reconciliation_rest_refreshed = false;
            r.error = None;
            r
        },
    }
}

/// A quantity that may be unknown.
pub open spec fn or_zero(x: Option<Double>) -> Double {
    match x {
        Some(v) => v,
        None => Double { bits: ZERO },
    }
}

/// Whether a position is as the fills of a trade say.
pub open spec fn as_expected(trade: SpreadStrategyTrade, position: Option<Position>) -> bool {
    match position {
        Some(p) => reconciled(p.long.quantity, or_zero(trade.expected_long_quantity)) && reconciled(
            p.short.quantity,
            or_zero(trade.expected_short_quantity),
        ),
        None => false,
    }
}

/// How many times in a row a position was as expected, once it was looked at
/// again.
pub open spec fn stable_after(trade: SpreadStrategyTrade, position: Option<Position>) -> u8 {
    if !as_expected(trade, position) {
        0
    } else if trade.reconciliation_stable_snapshots < u8::MAX {
        (trade.reconciliation_stable_snapshots + 1) as u8
    } else {
        u8::MAX
    }
}

/// The message that a trade was entered.
pub open spec fn entry_message(trade: SpreadStrategyTrade, position: Position) -> Seq<char> {
    let hundred = Double { bits: HUNDRED };
    "🟢 <b>价差策略入场完成 · "@ + trade.token@ + "</b>\nLONG "@ + position.long.exchange@ + " · "@ + fixed_text(
        position.long.quantity,
        8,
    ) + " @ $"@ + fixed_text(position.long.entry_price, 8) + "\nSHORT "@ + position.short.exchange@ + " · "@
        + fixed_text(position.short.quantity, 8) + " @ $"@ + fixed_text(position.short.entry_price, 8)
        + "\n每腿名义价值：约 $"@ + fixed_text(position.notional_usdt, 2) + " · 杠杆："@ + digits(
        position.leverage as nat,
    ) + "×\n信号价差："@ + signed_text(trade.entry_spread.mul_spec(hundred), 3) + "% · 加权偏离："@ + signed_text(
        trade.entry_deviation.mul_spec(hundred),
        3,
    ) + "%"@
}

fn write_entry_message(trade: &SpreadStrategyTrade, position: &Position) -> (message: String)
    ensures
        message@ == entry_message(*trade, *position),
{
    let hundred = Double { bits: HUNDRED };
    let mut message = join("🟢 <b>价差策略入场完成 · ", trade.token.as_str());
    message.append("</b>\nLONG ");
    message.append(position.long.exchange.as_str());
    message.append(" · ");
    message.append(fixed(position.long.quantity, 8).as_str());
    message.append(" @ $");
    message.append(fixed(position.long.entry_price, 8).as_str());
    message.append("\nSHORT ");
    message.append(position.short.exchange.as_str());
    message.append(" · ");
    message.append(fixed(position.short.quantity, 8).as_str());
    message.append(" @ $");
    message.append(fixed(position.short.entry_price, 8).as_str());
    message.append("\n每腿名义价值：约 $");
    message.append(fixed(position.notional_usdt, 2).as_str());
    message.append(" · 杠杆：");
    message.append(digits_text(position.leverage as u128).as_str());
    message.append("×\n信号价差：");
    message.append(fixed_signed(trade.entry_spread.mul(hundred), 3).as_str());
    message.append("% · 加权偏离：");
    message.append(fixed_signed(trade.entry_deviation.mul(hundred), 3).as_str());
    message.append("%");
    message
}

/// What is reported of a position that does not show.
pub open spec fn reconcile_error(trade: SpreadStrategyTrade, position: Option<Position>) -> Seq<char> {
    let zero = Double { bits: ZERO };
    let (long, short) = match position {
        Some(p) => (p.long.quantity, p.short.quantity),
        None => (zero, zero),
    };
    "waiting for authoritative position reconciliation: expected long "@ + fixed_text(
        or_zero(trade.expected_long_quantity),
        8,
    ) + ", short "@ + fixed_text(or_zero(trade.expected_short_quantity), 8) + "; actual long "@ + fixed_text(
        long,
        8,
    ) + ", short "@ + fixed_text(short, 8)
}

/// Whether a trade is another one once its position was looked at.
pub open spec fn position_seen(
    new: SpreadStrategyTrade,
    notice: Option<String>,
    old: SpreadStrategyTrade,
    position: Option<Position>,
    now: i64,
) -> bool {
    let stable = stable_after(old, position);
    let refreshed = old.reconciliation_rest_refreshed || asks_exchanges(old, now);
    let late = old.reconciliation_started_at is Some && elapsed(now, old.reconciliation_started_at->0)
        >= POSITION_RECONCILE_WARN_AFTER_MILLIS;
    if stable >= POSITION_RECONCILE_STABLE_SNAPSHOTS {
        &&& new.status@ == "active"@
        &&& new.position_id is Some
        &&& (new.position_id->0)@ == (position->0).id@
        &&& new == (SpreadStrategyTrade {
            status: new.status,
            opened_at: Some(now),
            position_id: new.position_id,
            entry_task_id: None,
            error: None,
            entry_notified: true,
            reconciliation_stable_snapshots: stable,
            reconciliation_rest_refreshed: refreshed,
            ..old
        })
        &&& notice is Some == !old.entry_notified
        &&& notice is Some ==> (notice->0)@ == entry_message(old, position->0)
    } else {
        &&& notice is None
        &&& late ==> new.error is Some && (new.error->0)@ == reconcile_error(old, position)
        &&& new == (SpreadStrategyTrade {
            error: if late {
                new.error
            } else {
                old.error
            },
            reconciliation_stable_snapshots: stable,
            reconciliation_rest_refreshed: refreshed,
            ..old
        })
    }
}

/// Looks at the position of a trade: it counts once it was as expected twice in
/// a row.
pub fn monitor_reconciliation(trade: SpreadStrategyTrade, positions: &Vec<Position>, now: i64) -> (r: (
    SpreadStrategyTrade,
    Option<String>,
))
    ensures
        position_seen(r.0, r.1, trade, position_of(positions@, trade.token@), now),
{
    let waited: i128 = match trade.reconciliation_started_at {
        Some(at) => since(now, at),
        None => 0,
    };
    let position = find_token(positions, trade.token.as_str());
    let expected_long = match trade.expected_long_quantity {
        Some(x) => x,
        None => Double { bits: ZERO },
    };
    let expected_short = match trade.expected_short_quantity {
        Some(x) => x,
        None => Double { bits: ZERO },
    };
    let ghost before = trade;
    let mut r = trade;
    if waited >= POSITION_RECONCILE_REST_AFTER_MILLIS as i128 && !r.reconciliation_rest_refreshed {
        r.reconciliation_rest_refreshed = true;
    }
    let fits: bool = match position {
        Some(p) => quantity_reconciled(p.long.quantity, expected_long) && quantity_reconciled(
            p.short.quantity,
            expected_short,
        ),
        None => false,
    };
    if !fits {
        r.reconciliation_stable_snapshots = 0;
    } else if r.reconciliation_stable_snapshots < u8::MAX {
        r.reconciliation_stable_snapshots = r.reconciliation_stable_snapshots + 1;
    }
    if r.reconciliation_stable_snapshots >= POSITION_RECONCILE_STABLE_SNAPSHOTS {
        if let Some(p) = position {
            let notice = if r.entry_notified {
                None
            } else {
                Some(write_entry_message(&r, p))
            };
            r.status = "active".to_owned();
            r.opened_at = Some(now);
            r.position_id = Some(p.id.clone());
            r.entry_task_id = None;
            r.error = None;
            r.entry_notified = true;
            return (r, notice);
        }
    } else if waited >= POSITION_RECONCILE_WARN_AFTER_MILLIS as i128 {
        let zero = Double { bits: ZERO };
        let (long, short) = match position {
            Some(p) => (p.long.quantity, p.short.quantity),
            None => (zero, zero),
        };
        let mut error = join(
            "waiting for authoritative position reconciliation: expected long ",
            fixed(expected_long, 8).as_str(),
        );
        error.append(", short ");
        error.append(fixed(expected_short, 8).as_str());
        error.append("; actual long ");
        error.append(fixed(long, 8).as_str());
        error.append(", short ");
        error.append(fixed(short, 8).as_str());
        r.error = Some(error);
    }
    (r, None)
}

/// Whether a position is the one of a trade: by its name, or by its token.
pub open spec fn is_own(trade: SpreadStrategyTrade, position: Position) -> bool {
    (trade.position_id is Some && (trade.position_id->0)@ == position.id@) || position.token@ == trade.token@
}

/// The first position of a trade.
pub open spec fn own_position(trade: SpreadStrategyTrade, positions: Seq<Position>) -> Option<Position>
    decreases positions.len(),
{
    if positions.len() == 0 {
        None
    } else if is_own(trade, positions[0]) {
        Some(positions[0])
    } else {
        own_position(trade, positions.drop_first())
    }
}

fn find_own<'a>(trade: &SpreadStrategyTrade, positions: &'a Vec<Position>) -> (r: Option<&'a Position>)
    ensures
        own_position(*trade, positions@) == (match r {
            Some(p) => Some(*p),
            None => None,
        }),
{
    let mut i: usize = 0;
    proof {
        assert(positions@.skip(0) =~= positions@);
    }
    while i < positions.len()
        invariant
            i <= positions@.len(),
            own_position(*trade, positions@) == own_position(*trade, positions@.skip(i as int)),
        decreases positions@.len() - i,
    {
        proof {
            assert(positions@.skip(i as int)[0] == positions@[i as int]);
            assert(positions@.skip(i as int).drop_first() =~= positions@.skip(i as int + 1));
        }
        let named: bool = match &trade.position_id {
            Some(id) => same(id.as_str(), positions[i].id.as_str()),
            None => false,
        };
        if named || same(positions[i].token.as_str(), trade.token.as_str()) {
            return Some(&positions[i]);
        }
        i = i + 1;
    }
    None
}

/// How many hours a trade was held, five at most.
pub open spec fn held_hours(trade: SpreadStrategyTrade, now: i64) -> i64 {
    let held = elapsed(now, opened(trade));
    let hours = if held > 0 {
        held / 3600000
    } else {
        0
    };
    if hours < ROI_FLOOR_AFTER_HOURS {
        hours as i64
    } else {
        ROI_FLOOR_AFTER_HOURS
    }
}

/// What to do with a trade that is held.
pub enum ActiveStep {
    /// The trade is over; a notice may have to be sent.
    Finished(SpreadStrategyTrade, Option<String>),
    /// Leave at the market, after the task was cancelled, if there is one.
    MarketExit(SpreadStrategyTrade),
    /// Cancel the task, whose target is out of date; the trade is kept where
    /// that succeeds.
    Retarget(SpreadStrategyTrade),
    /// The task goes on; the trade is kept in mind.
    Keep(SpreadStrategyTrade),
    /// Start leaving at a target; the trade is kept where that succeeds.
    Leave(SpreadStrategyTrade, BatchReduceRequest),
}

/// A trade at the state of its position.
pub open spec fn at_position(new: SpreadStrategyTrade, old: SpreadStrategyTrade, position: Position) -> bool {
    &&& new.position_id is Some
    &&& (new.position_id->0)@ == position.id@
    &&& new.current_roi == Some(position.current_roi)
    &&& new == (SpreadStrategyTrade { position_id: new.position_id, current_roi: new.current_roi, ..old })
}

/// Whether a trade leaves at the market for a reason.
pub open spec fn leaves_at_market(
    new: SpreadStrategyTrade,
    old: SpreadStrategyTrade,
    position: Position,
    reason: Seq<char>,
) -> bool {
    &&& new.status@ == "market_exit"@
    &&& new.exit_reason is Some
    &&& (new.exit_reason->0)@ == reason
    &&& at_position(
        SpreadStrategyTrade { status: old.status, exit_reason: old.exit_reason, ..new },
        old,
        position,
    )
}

/// Whether a task has not come to an end.
pub open spec fn task_active(task: BatchIncreaseTask) -> bool {
    task.status@ == "queued"@ || task.status@ == "running"@ || task.status@ == "cancelling"@
}

/// Whether a task has not come to an end.
pub fn is_task_active(task: &BatchIncreaseTask) -> (b: bool)
    ensures
        b == task_active(*task),
{
    same(task.status.as_str(), "queued") || same(task.status.as_str(), "running") || same(
        task.status.as_str(),
        "cancelling",
    )
}

/// Whether this asks for leaving a position without a loss, at a target.
pub open spec fn asks_leave(request: BatchReduceRequest, position: Position, target: Double) -> bool {
    &&& request.position_id@ == position.id@
    &&& request == (BatchReduceRequest {
        position_id: request.position_id,
        target_notional_usdt: position.notional_usdt,
        close_all: true,
        order_notional_usdt: Double { bits: ZERO },
        interval_seconds: Double { bits: ZERO },
        no_loss_guard: true,
        close_spread_threshold: None,
        minimum_roi: Some(target),
    })
}

/// Whether this is what to do with a trade whose position is held.
pub open spec fn held_step(
    step: ActiveStep,
    trade: SpreadStrategyTrade,
    position: Position,
    task: Option<BatchIncreaseTask>,
    now: i64,
) -> bool {
    let hours = held_hours(trade, now);
    let target = target_after(trade.entry_deviation, hours);
    if position.current_roi.le_spec(Double { bits: STOP_LOSS_ROI }) {
        step matches ActiveStep::MarketExit(new) && leaves_at_market(new, trade, position, "stop_loss"@)
    } else if elapsed(now, opened(trade)) >= MAX_HOLD_MILLIS {
        step matches ActiveStep::MarketExit(new) && leaves_at_market(new, trade, position, "max_hold_time"@)
    } else if trade.exit_task_id is Some && task is Some && (task->0).status@ == "completed"@ {
        &&& step matches ActiveStep::Finished(new, notice)
        &&& exists|mid: SpreadStrategyTrade| #[trigger]
            at_position(mid, trade, position) && exited(new, notice, mid, "take_profit"@, now)
    } else if trade.exit_task_id is Some && task is Some && task_active(task->0) {
        if trade.target_hour != Some(hours) && (task->0).status@ != "cancelling"@ {
            step matches ActiveStep::Retarget(new) && at_position(new, trade, position)
        } else {
            step matches ActiveStep::Keep(new) && at_position(new, trade, position)
        }
    } else {
        &&& step matches ActiveStep::Leave(new, request)
        &&& asks_leave(request, position, target)
        &&& at_position(
            SpreadStrategyTrade {
                exit_task_id: trade.exit_task_id,
                target_roi: trade.target_roi,
                target_hour: trade.target_hour,
                ..new
            },
            trade,
            position,
        )
        &&& new.exit_task_id is None
        &&& new.target_roi == Some(target)
        &&& new.target_hour == Some(hours)
    }
}

/// What to do with a trade that is held. The task is the one that leaves it, if
/// it is known.
pub fn monitor_active(
    trade: SpreadStrategyTrade,
    positions: &Vec<Position>,
    task: Option<&BatchIncreaseTask>,
    now: i64,
) -> (step: ActiveStep)
    ensures
        match own_position(trade, positions@) {
            None => step matches ActiveStep::Finished(new, notice) && exited(
                new,
                notice,
                trade,
                "position_closed"@,
                now,
            ),
            Some(position) => held_step(
                step,
                trade,
                position,
                match task {
                    Some(t) => Some(*t),
                    None => None,
                },
                now,
            ),
        },
{
    let position = match find_own(&trade, positions) {
        Some(p) => p,
        None => {
            let (new, notice) = finish_exit(trade, "position_closed", now);
            return ActiveStep::Finished(new, notice);
        },
    };
    let ghost before = trade;
    let mut r = trade;
    r.position_id = Some(position.id.clone());
    r.current_roi = Some(position.current_roi);
    let at: i64 = match r.opened_at {
        Some(at) => at,
        None => r.signal_at,
    };
    let held: i128 = since(now, at);
    proof {
        assert(at_position(r, before, *position));
    }
    if position.current_roi.le(Double { bits: STOP_LOSS_ROI }) {
        r.status = "market_exit".to_owned();
        r.exit_reason = Some("stop_loss".to_owned());
        return ActiveStep::MarketExit(r);
    }
    if held >= MAX_HOLD_MILLIS as i128 {
        r.status = "market_exit".to_owned();
        r.exit_reason = Some("max_hold_time".to_owned());
        return ActiveStep::MarketExit(r);
    }
    let hours: i64 = if held <= 0 {
        0
    } else if held / 3600000 < ROI_FLOOR_AFTER_HOURS as i128 {
        (held / 3600000) as i64
    } else {
        ROI_FLOOR_AFTER_HOURS
    };
    let target = take_profit_target(r.entry_deviation, hours);
    if r.exit_task_id.is_some() {
        if let Some(t) = task {
            if same(t.status.as_str(), "completed") {
                let (new, notice) = finish_exit(r, "take_profit", now);
                return ActiveStep::Finished(new, notice);
            }
            if is_task_active(t) {
                let same_hour: bool = match r.target_hour {
                    Some(h) => h == hours,
                    None => false,
                };
                if !same_hour && !same(t.status.as_str(), "cancelling") {
                    return ActiveStep::Retarget(r);
                }
                return ActiveStep::Keep(r);
            }
        }
    }
    let request = BatchReduceRequest {
        position_id: position.id.clone(),
        target_notional_usdt: position.notional_usdt,
        close_all: true,
        order_notional_usdt: Double { bits: ZERO },
        interval_seconds: Double { bits: ZERO },
        no_loss_guard: true,
        close_spread_threshold: None,
        minimum_roi: Some(target),
    };
    r.exit_task_id = None;
    r.target_roi = Some(target);
    r.target_hour = Some(hours);
    ActiveStep::Leave(r, request)
}

/// Keeps the task that leaves a trade.
pub fn on_exit_task(trade: SpreadStrategyTrade, id: String) -> (r: SpreadStrategyTrade)
    ensures
        r == (SpreadStrategyTrade { exit_task_id: Some(id), ..trade }),
{
    let mut r = trade;
    r.exit_task_id = Some(id);
    r
}

/// What to do with a trade that leaves at the market.
pub enum MarketExitStep {
    /// A task has not come to an end yet.
    Wait,
    /// The trade is over; a notice may have to be sent.
    Finished(SpreadStrategyTrade, Option<String>),
    /// Close a position.
    Close(SpreadStrategyTrade, String),
}

/// For what reason a trade leaves at the market.
pub open spec fn market_reason(trade: SpreadStrategyTrade) -> Seq<char> {
    match trade.exit_reason {
        Some(text) => text@,
        None => "market_exit"@,
    }
}

/// What to do with a trade that leaves at the market. `busy` tells whether its
/// task has not come to an end.
pub fn monitor_market_exit(
    trade: SpreadStrategyTrade,
    busy: bool,
    positions: &Vec<Position>,
    now: i64,
) -> (step: MarketExitStep)
    ensures
        if trade.exit_task_id is Some && busy {
            step is Wait
        } else {
            let cleared = SpreadStrategyTrade { exit_task_id: None, ..trade };
            match position_of(positions@, trade.token@) {
                None => step matches MarketExitStep::Finished(new, notice) && exited(
                    new,
                    notice,
                    cleared,
                    market_reason(trade),
                    now,
                ),
                Some(position) => step matches MarketExitStep::Close(new, id) && new == cleared && id@
                    == position.id@,
            }
        },
{
    if trade.exit_task_id.is_some() && busy {
        return MarketExitStep::Wait;
    }
    let mut r = trade;
    r.exit_task_id = None;
    match find_token(positions, r.token.as_str()) {
        Some(position) => MarketExitStep::Close(r, position.id.clone()),
        None => {
            let reason = match &r.exit_reason {
                Some(text) => text.clone(),
                None => "market_exit".to_owned(),
            };
            let (new, notice) = finish_exit(r, reason.as_str(), now);
            MarketExitStep::Finished(new, notice)
        },
    }
}

/// Takes in whether a position was closed at the market.
pub fn on_close(trade: SpreadStrategyTrade, error: Option<String>, now: i64) -> (r: (
    SpreadStrategyTrade,
    Option<String>,
))
    ensures
        match error {
            None => exited(r.0, r.1, trade, market_reason(trade), now),
            Some(text) => failed(r.0, trade, "market exit failed: "@ + text@, now) && r.1 is None,
        },
{
    match error {
        None => {
            let reason = match &trade.exit_reason {
                Some(text) => text.clone(),
                None => "market_exit".to_owned(),
            };
            finish_exit(trade, reason.as_str(), now)
        },
        Some(text) => (fail(trade, join("market exit failed: ", text.as_str()), now), None),
    }
}

/// The strategy: the trade that it is in, if any.
pub struct SpreadStrategyService {
    pub trade: Option<SpreadStrategyTrade>,
    pub enabled: bool,
}

impl SpreadStrategyService {
    /// A strategy that goes on from what was kept.
    pub fn new(trade: Option<SpreadStrategyTrade>, enabled: bool) -> (service: SpreadStrategyService)
        ensures
            service.trade == trade,
            service.enabled == enabled,
    {
        SpreadStrategyService { trade, enabled }
    }

    /// Whether the strategy runs.
    pub fn spawn(&self) -> (runs: bool)
        ensures
            runs == self.enabled,
    {
        self.enabled
    }

    /// The trade that the strategy is in.
    pub fn status(&self) -> (r: Option<SpreadStrategyTrade>)
        ensures
            r == self.trade,
    {
        match &self.trade {
            Some(trade) => Some(trade.clone()),
            None => None,
        }
    }

    /// Keeps a trade, or forgets the last one.
    pub fn replace_state(&mut self, trade: Option<SpreadStrategyTrade>)
        ensures
            final(self).trade == trade,
            final(self).enabled == old(self).enabled,
    {
        self.trade = trade;
    }

    /// What the strategy has to do next.
    pub fn tick(&self, now: i64) -> (tick: StrategyTick)
        ensures
            tick == tick_of(self.trade, now),
    {
        let trade = match &self.trade {
            Some(trade) => trade,
            None => return StrategyTick::Scan,
        };
        let status = trade.status.as_str();
        if same(status, "closed") || same(status, "failed") {
            let finished: i64 = match trade.closed_at {
                Some(at) => at,
                None => trade.signal_at,
            };
            return if since(now, finished) >= REENTRY_COOLDOWN_MILLIS as i128 {
                StrategyTick::Clear
            } else {
                StrategyTick::Wait
            };
        }
        if same(status, "entering") {
            return StrategyTick::Entry;
        }
        if same(status, "reconciling") {
            let late: bool = match trade.reconciliation_started_at {
                Some(at) => since(now, at) >= POSITION_RECONCILE_REST_AFTER_MILLIS as i128,
                None => false,
            };
            return StrategyTick::Reconcile { authoritative: late && !trade.reconciliation_rest_refreshed };
        }
        if same(status, "active") {
            return StrategyTick::Active;
        }
        if same(status, "market_exit") {
            return StrategyTick::MarketExit;
        }
        StrategyTick::Wait
    }

    /// Looks for a gap to enter: the first that is wide enough, can be traded,
    /// and whose token is not held.
    pub fn scan_entry(&mut self, offers: &Vec<Opportunity>, positions: &Vec<Position>, now: i64) -> (r: Option<
        BatchIncreaseRequest,
    >)
        ensures
            final(self).enabled == old(self).enabled,
            match first_enterable(offers@, positions@) {
                None => r is None && final(self).trade == old(self).trade,
                Some(offer) => {
                    &&& r is Some
                    &&& asks_entry(r->0, offer)
                    &&& final(self).trade is Some
                    &&& starts(final(self).trade->0, offer, now)
                },
            },
    {
        let offer = match find_enterable(offers, positions) {
            Some(offer) => offer,
            None => return None,
        };
        self.trade = Some(
            SpreadStrategyTrade {
                token: offer.token.symbol.clone(),
                opportunity_id: offer.id.clone(),
                status: "entering".to_owned(),
                signal_at: now,
                opened_at: None,
                closed_at: None,
                entry_spread: offer.spread,
                entry_deviation: offer.spread_vs_average,
                position_id: None,
                entry_task_id: None,
                exit_task_id: None,
                target_roi: None,
                target_hour: None,
                current_roi: None,
                exit_reason: None,
                error: None,
                expected_long_quantity: None,
                expected_short_quantity: None,
                reconciliation_started_at: None,
                reconciliation_stable_snapshots: 0,
                reconciliation_rest_refreshed: false,
                entry_notified: false,
                exit_notified: false,
            },
        );
        Some(
            BatchIncreaseRequest {
                opportunity_id: offer.id.clone(),
                target_notional_usdt: Double { bits: ENTRY_NOTIONAL_USDT },
                order_notional_usdt: Double { bits: ZERO },
                interval_seconds: Double { bits: ZERO },
                leverage: ENTRY_LEVERAGE,
                spread_guard: true,
                spread_threshold: Some(offer.spread),
            },
        )
    }
}

/// Takes in the task that enters a trade, or why there is none.
pub fn on_entry_task(trade: SpreadStrategyTrade, answer: Result<String, String>, now: i64) -> (r: SpreadStrategyTrade)
    ensures
        match answer {
            Ok(id) => r == (SpreadStrategyTrade { entry_task_id: Some(id), ..trade }),
            Err(text) => failed(r, trade, "entry task failed: "@ + text@, now),
        },
{
    match answer {
        Ok(id) => {
            let mut r = trade;
            r.entry_task_id = Some(id);
            r
        },
        Err(text) => fail(trade, join("entry task failed: ", text.as_str()), now),
    }
}

/// A trade becomes active only after its position was as expected twice in a
/// row.
pub proof fn lemma_active_needs_two_matches(
    first: SpreadStrategyTrade,
    second: SpreadStrategyTrade,
    third: SpreadStrategyTrade,
    notices: (Option<String>, Option<String>),
    seen: (Option<Position>, Option<Position>),
    times: (i64, i64),
)
    requires
        first.status@ == "reconciling"@,
        first.reconciliation_stable_snapshots == 0,
        position_seen(second, notices.0, first, seen.0, times.0),
        position_seen(third, notices.1, second, seen.1, times.1),
    ensures
        second.status@ == "reconciling"@,
        third.status@ == "active"@ ==> as_expected(first, seen.0) && as_expected(first, seen.1),
{
    reveal_strlit("reconciling");
    reveal_strlit("active");
    assert("reconciling"@.len() != "active"@.len());
}

/// A held trade leaves at the market as soon as it loses two percent, and after
/// ten hours in any case.
pub proof fn lemma_losses_are_cut(
    step: ActiveStep,
    trade: SpreadStrategyTrade,
    position: Position,
    task: Option<BatchIncreaseTask>,
    now: i64,
)
    requires
        held_step(step, trade, position, task, now),
        position.current_roi.le_spec(Double { bits: STOP_LOSS_ROI }) || elapsed(now, opened(trade))
            >= MAX_HOLD_MILLIS,
    ensures
        step is MarketExit,
{
}

} // verus!
