//! The log lines of a batch task.

use crate::models::{BatchExecutionLog, ExecutionReport, Opportunity, OrderExecution, Position, TradeResponse};
use crate::num::constants::ZERO;
use crate::num::Double;
use crate::text::{contains, digits, digits_text, occurs, same};
use vstd::prelude::*;
use vstd::string::StringExecFns;

verus! {

/// One more, as far as the machine can count.
pub open spec fn bumped(n: usize) -> usize {
    if n < usize::MAX {
        (n + 1) as usize
    } else {
        n
    }
}

pub fn bump(n: usize) -> (r: usize)
    ensures
        r == bumped(n),
{
    if n < usize::MAX {
        n + 1
    } else {
        n
    }
}

/// The notional of a fill.
pub open spec fn filled(order: OrderExecution) -> Double {
    order.executed_quantity.mul_spec(order.average_price)
}

pub fn filled_notional(order: &OrderExecution) -> (r: Double)
    ensures
        r == filled(*order),
{
    order.executed_quantity.mul(order.average_price)
}

/// The line of a fill, not yet numbered.
pub open spec fn is_fill_log(
    log: BatchExecutionLog,
    token: Seq<char>,
    batch: usize,
    side: Seq<char>,
    order: OrderExecution,
    message: Seq<char>,
    now: i64,
) -> bool {
    &&& log.sequence == 0
    &&& log.batch == batch
    &&& log.timestamp == now
    &&& log.exchange@ == order.exchange@
    &&& log.side@ == side
    &&& log.token@ == token
    &&& log.notional_usdt == filled(order)
    &&& log.executed_quantity == order.executed_quantity
    &&& log.average_price == order.average_price
    &&& log.status@ == order.status@
    &&& log.order_id@ == order.order_id@
    &&& log.message@ == message
}

pub fn fill_log(
    token: &str,
    batch: usize,
    side: &str,
    order: &OrderExecution,
    message: &str,
    now: i64,
) -> (log: BatchExecutionLog)
    ensures
        is_fill_log(log, token@, batch, side@, *order, message@, now),
{
    BatchExecutionLog {
        sequence: 0,
        batch,
        timestamp: now,
        exchange: order.exchange.clone(),
        side: side.to_owned(),
        token: token.to_owned(),
        notional_usdt: filled_notional(order),
        executed_quantity: order.executed_quantity,
        average_price: order.average_price,
        status: order.status.clone(),
        order_id: order.order_id.clone(),
        message: message.to_owned(),
    }
}

/// The message of a limit order that opened a leg.
pub open spec fn guard_message(is_compensation: bool) -> Seq<char> {
    if is_compensation {
        "保价差补偿限价单成交"@
    } else {
        "保价差 IOC 限价单成交"@
    }
}

/// The line of a limit order that opened a leg.
pub fn guard_batch_log(
    token: &str,
    batch: usize,
    side: &str,
    order: &OrderExecution,
    is_compensation: bool,
    now: i64,
) -> (log: BatchExecutionLog)
    ensures
        is_fill_log(log, token@, batch, side@, *order, guard_message(is_compensation), now),
{
    if is_compensation {
        fill_log(token, batch, side, order, "保价差补偿限价单成交", now)
    } else {
        fill_log(token, batch, side, order, "保价差 IOC 限价单成交", now)
    }
}

/// The line of a market order that made up for the smaller leg of an opening.
pub fn guard_market_supplement_log(
    token: &str,
    batch: usize,
    side: &str,
    order: &OrderExecution,
    now: i64,
) -> (log: BatchExecutionLog)
    ensures
        is_fill_log(log, token@, batch, side@, *order, "单腿差额立即市价补齐"@, now),
{
    fill_log(token, batch, side, order, "单腿差额立即市价补齐", now)
}

/// The message of a limit order that closed a leg.
pub open spec fn no_loss_message(is_compensation: bool) -> Seq<char> {
    if is_compensation {
        "保不亏补偿限价平仓成交"@
    } else {
        "保不亏 IOC 限价平仓成交"@
    }
}

/// The line of a limit order that closed a leg.
pub fn no_loss_batch_log(
    token: &str,
    batch: usize,
    side: &str,
    order: &OrderExecution,
    is_compensation: bool,
    now: i64,
) -> (log: BatchExecutionLog)
    ensures
        is_fill_log(log, token@, batch, side@, *order, no_loss_message(is_compensation), now),
{
    if is_compensation {
        fill_log(token, batch, side, order, "保不亏补偿限价平仓成交", now)
    } else {
        fill_log(token, batch, side, order, "保不亏 IOC 限价平仓成交", now)
    }
}

/// The line of a market order that made up for the smaller leg of a closing.
pub fn no_loss_market_supplement_log(
    token: &str,
    batch: usize,
    side: &str,
    order: &OrderExecution,
    now: i64,
) -> (log: BatchExecutionLog)
    ensures
        is_fill_log(log, token@, batch, side@, *order, "单腿平仓差额立即市价补齐"@, now),
{
    fill_log(token, batch, side, order, "单腿平仓差额立即市价补齐", now)
}

/// The orders of a report in the order in which they were sent.
pub open spec fn report_orders(report: ExecutionReport) -> Seq<OrderExecution> {
    report.orders@ + report.supplement_orders@ + report.rebalance_orders@ + report.compensation_orders@
}

/// Which leg an order belongs to.
pub open spec fn order_side(
    order: OrderExecution,
    long_exchange: Seq<char>,
    short_exchange: Seq<char>,
) -> Seq<char> {
    if occurs(order.exchange@, "Spot Margin"@) {
        "short"@
    } else if order.exchange@ == long_exchange {
        "long"@
    } else if order.exchange@ == short_exchange {
        "short"@
    } else {
        "unknown"@
    }
}

fn side_of_order(order: &OrderExecution, long_exchange: &str, short_exchange: &str) -> (side: String)
    ensures
        side@ == order_side(*order, long_exchange@, short_exchange@),
{
    if contains(order.exchange.as_str(), "Spot Margin") {
        "short".to_owned()
    } else if same(order.exchange.as_str(), long_exchange) {
        "long".to_owned()
    } else if same(order.exchange.as_str(), short_exchange) {
        "short".to_owned()
    } else {
        "unknown".to_owned()
    }
}

/// Whether an order with the given identifier is among some.
pub open spec fn among(orders: Seq<OrderExecution>, client_order_id: Seq<char>) -> bool {
    exists|i: int|
        0 <= i < orders.len() && (#[trigger] orders[i]).client_order_id@ == client_order_id
}

fn is_among(orders: &Vec<OrderExecution>, client_order_id: &str) -> (b: bool)
    ensures
        b == among(orders@, client_order_id@),
{
    let mut i: usize = 0;
    while i < orders.len()
        invariant
            i <= orders@.len(),
            forall|j: int|
                0 <= j < i ==> (#[trigger] orders@[j]).client_order_id@ != client_order_id@,
        decreases orders@.len() - i,
    {
        if same(orders[i].client_order_id.as_str(), client_order_id) {
            return true;
        }
        i = i + 1;
    }
    false
}

/// What the line of an order of an increase says.
pub open spec fn increase_message(report: ExecutionReport, order: OrderExecution) -> Seq<char> {
    if among(report.orders@, order.client_order_id@) {
        "批次市价单成交"@
    } else if among(report.supplement_orders@, order.client_order_id@) {
        "目标仓位补单"@
    } else {
        "双腿差额对齐"@
    }
}

/// What the line of an order of a reduction says.
pub open spec fn reduce_message(report: ExecutionReport, order: OrderExecution) -> Seq<char> {
    if among(report.orders@, order.client_order_id@) {
        "批次减仓市价单成交"@
    } else {
        "减仓后双腿差额对齐"@
    }
}

fn all_orders(report: &ExecutionReport) -> (orders: Vec<OrderExecution>)
    ensures
        orders@ == report_orders(*report),
{
    let mut orders = crate::models::copy_order_executions(&report.orders);
    let mut supplements = crate::models::copy_order_executions(&report.supplement_orders);
    let mut rebalances = crate::models::copy_order_executions(&report.rebalance_orders);
    let mut compensations = crate::models::copy_order_executions(&report.compensation_orders);
    orders.append(&mut supplements);
    orders.append(&mut rebalances);
    orders.append(&mut compensations);
    orders
}

/// The line of a simulated fill.
pub open spec fn is_paper_log(
    log: BatchExecutionLog,
    token: Seq<char>,
    batch: usize,
    exchange: Seq<char>,
    side: Seq<char>,
    price: Double,
    batch_notional: Double,
    order_id: Seq<char>,
    message: Seq<char>,
    now: i64,
) -> bool {
    &&& log.sequence == 0
    &&& log.batch == batch
    &&& log.timestamp == now
    &&& log.exchange@ == exchange
    &&& log.side@ == side
    &&& log.token@ == token
    &&& log.notional_usdt == batch_notional
    &&& log.executed_quantity == batch_notional.div_spec(price)
    &&& log.average_price == price
    &&& log.status@ == "FILLED"@
    &&& log.order_id@ == order_id
    &&& log.message@ == message
}

fn paper_log(
    token: &str,
    batch: usize,
    exchange: &str,
    side: &str,
    price: Double,
    batch_notional: Double,
    prefix: &str,
    message: &str,
    now: i64,
) -> (log: BatchExecutionLog)
    ensures
        is_paper_log(
            log,
            token@,
            batch,
            exchange@,
            side@,
            price,
            batch_notional,
            prefix@ + digits(batch as nat) + "-"@ + side@,
            message@,
            now,
        ),
{
    let mut order_id = prefix.to_owned();
    order_id.append(digits_text(batch as u128).as_str());
    order_id.append("-");
    order_id.append(side);
    BatchExecutionLog {
        sequence: 0,
        batch,
        timestamp: now,
        exchange: exchange.to_owned(),
        side: side.to_owned(),
        token: token.to_owned(),
        notional_usdt: batch_notional,
        executed_quantity: batch_notional.div(price),
        average_price: price,
        status: "FILLED".to_owned(),
        order_id,
        message: message.to_owned(),
    }
}

/// The lines of one batch of an increase: one for every order that was sent,
/// or two simulated ones.
pub open spec fn are_batch_logs(
    logs: Seq<BatchExecutionLog>,
    opportunity: Opportunity,
    batch: usize,
    response: TradeResponse,
    batch_notional: Double,
    now: i64,
) -> bool {
    let token = opportunity.token.symbol@;
    match response.execution {
        Some(report) => {
            &&& logs.len() == report_orders(report).len()
            &&& forall|i: int|
                0 <= i < logs.len() ==> is_fill_log(
                    #[trigger] logs[i],
                    token,
                    batch,
                    order_side(
                        report_orders(report)[i],
                        opportunity.long.exchange@,
                        opportunity.short.exchange@,
                    ),
                    report_orders(report)[i],
                    increase_message(report, report_orders(report)[i]),
                    now,
                )
        },
        None => {
            &&& logs.len() == 2
            &&& is_paper_log(
                logs[0],
                token,
                batch,
                opportunity.long.exchange@,
                "long"@,
                opportunity.long.ask,
                batch_notional,
                "paper-"@ + digits(batch as nat) + "-"@ + "long"@,
                "模拟批次成交"@,
                now,
            )
            &&& is_paper_log(
                logs[1],
                token,
                batch,
                opportunity.short.exchange@,
                "short"@,
                opportunity.short.bid,
                batch_notional,
                "paper-"@ + digits(batch as nat) + "-"@ + "short"@,
                "模拟批次成交"@,
                now,
            )
        },
    }
}

pub fn batch_logs(
    opportunity: &Opportunity,
    batch: usize,
    response: &TradeResponse,
    batch_notional: Double,
    now: i64,
) -> (logs: Vec<BatchExecutionLog>)
    ensures
        are_batch_logs(logs@, *opportunity, batch, *response, batch_notional, now),
{
    let mut logs: Vec<BatchExecutionLog> = Vec::new();
    let token = opportunity.token.symbol.as_str();
    match &response.execution {
        Some(report) => {
            let orders = all_orders(report);
            let mut i: usize = 0;
            while i < orders.len()
                invariant
                    i <= orders@.len(),
                    logs@.len() == i,
                    orders@ == report_orders(*report),
                    token@ == opportunity.token.symbol@,
                    forall|j: int|
                        0 <= j < i ==> is_fill_log(
                            #[trigger] logs@[j],
                            token@,
                            batch,
                            order_side(
                                orders@[j],
                                opportunity.long.exchange@,
                                opportunity.short.exchange@,
                            ),
                            orders@[j],
                            increase_message(*report, orders@[j]),
                            now,
                        ),
                decreases orders@.len() - i,
            {
                let order = &orders[i];
                let side = side_of_order(
                    order,
                    opportunity.long.exchange.as_str(),
                    opportunity.short.exchange.as_str(),
                );
                let message = if is_among(&report.orders, order.client_order_id.as_str()) {
                    "批次市价单成交"
                } else if is_among(&report.supplement_orders, order.client_order_id.as_str()) {
                    "目标仓位补单"
                } else {
                    "双腿差额对齐"
                };
                logs.push(fill_log(token, batch, side.as_str(), order, message, now));
                i = i + 1;
            }
        },
        None => {
            logs.push(
                paper_log(
                    token,
                    batch,
                    opportunity.long.exchange.as_str(),
                    "long",
                    opportunity.long.ask,
                    batch_notional,
                    "paper-",
                    "模拟批次成交",
                    now,
                ),
            );
            logs.push(
                paper_log(
                    token,
                    batch,
                    opportunity.short.exchange.as_str(),
                    "short",
                    opportunity.short.bid,
                    batch_notional,
                    "paper-",
                    "模拟批次成交",
                    now,
                ),
            );
        },
    }
    logs
}

/// The lines of one batch of a reduction: one for every order that was sent,
/// or two simulated ones.
pub open spec fn are_reduce_logs(
    logs: Seq<BatchExecutionLog>,
    position: Position,
    batch: usize,
    response: TradeResponse,
    batch_notional: Double,
    now: i64,
) -> bool {
    let token = position.token@;
    match response.execution {
        Some(report) => {
            &&& logs.len() == report_orders(report).len()
            &&& forall|i: int|
                0 <= i < logs.len() ==> is_fill_log(
                    #[trigger] logs[i],
                    token,
                    batch,
                    order_side(
                        report_orders(report)[i],
                        position.long.exchange@,
                        position.short.exchange@,
                    ),
                    report_orders(report)[i],
                    reduce_message(report, report_orders(report)[i]),
                    now,
                )
        },
        None => {
            &&& logs.len() == 2
            &&& is_paper_log(
                logs[0],
                token,
                batch,
                position.long.exchange@,
                "long"@,
                position.long.mark_price,
                batch_notional,
                "paper-reduce-"@ + digits(batch as nat) + "-"@ + "long"@,
                "模拟批次减仓成交"@,
                now,
            )
            &&& is_paper_log(
                logs[1],
                token,
                batch,
                position.short.exchange@,
                "short"@,
                position.short.mark_price,
                batch_notional,
                "paper-reduce-"@ + digits(batch as nat) + "-"@ + "short"@,
                "模拟批次减仓成交"@,
                now,
            )
        },
    }
}

pub fn batch_reduce_logs(
    position: &Position,
    batch: usize,
    response: &TradeResponse,
    batch_notional: Double,
    now: i64,
) -> (logs: Vec<BatchExecutionLog>)
    ensures
        are_reduce_logs(logs@, *position, batch, *response, batch_notional, now),
{
    let mut logs: Vec<BatchExecutionLog> = Vec::new();
    let token = position.token.as_str();
    match &response.execution {
        Some(report) => {
            let orders = all_orders(report);
            let mut i: usize = 0;
            while i < orders.len()
                invariant
                    i <= orders@.len(),
                    logs@.len() == i,
                    orders@ == report_orders(*report),
                    token@ == position.token@,
                    forall|j: int|
                        0 <= j < i ==> is_fill_log(
                            #[trigger] logs@[j],
                            token@,
                            batch,
                            order_side(
                                orders@[j],
                                position.long.exchange@,
                                position.short.exchange@,
                            ),
                            orders@[j],
                            reduce_message(*report, orders@[j]),
                            now,
                        ),
                decreases orders@.len() - i,
            {
                let order = &orders[i];
                let side = side_of_order(
                    order,
                    position.long.exchange.as_str(),
                    position.short.exchange.as_str(),
                );
                let message = if is_among(&report.orders, order.client_order_id.as_str()) {
                    "批次减仓市价单成交"
                } else {
                    "减仓后双腿差额对齐"
                };
                logs.push(fill_log(token, batch, side.as_str(), order, message, now));
                i = i + 1;
            }
        },
        None => {
            logs.push(
                paper_log(
                    token,
                    batch,
                    position.long.exchange.as_str(),
                    "long",
                    position.long.mark_price,
                    batch_notional,
                    "paper-reduce-",
                    "模拟批次减仓成交",
                    now,
                ),
            );
            logs.push(
                paper_log(
                    token,
                    batch,
                    position.short.exchange.as_str(),
                    "short",
                    position.short.mark_price,
                    batch_notional,
                    "paper-reduce-",
                    "模拟批次减仓成交",
                    now,
                ),
            );
        },
    }
    logs
}

/// Lines appended to a log, each numbered by its place.
pub open spec fn appended(before: Seq<BatchExecutionLog>, lines: Seq<BatchExecutionLog>) -> Seq<
    BatchExecutionLog,
>
    decreases lines.len(),
{
    if lines.len() == 0 {
        before
    } else {
        let earlier = appended(before, lines.drop_last());
        earlier.push(
            BatchExecutionLog { sequence: bumped(earlier.len() as usize), ..lines.last() },
        )
    }
}

pub fn append_logs(logs: &mut Vec<BatchExecutionLog>, lines: Vec<BatchExecutionLog>)
    ensures
        final(logs)@ == appended(old(logs)@, lines@),
{
    let ghost before = logs@;
    let mut i: usize = 0;
    proof {
        assert(lines@.take(0) =~= Seq::<BatchExecutionLog>::empty());
    }
    while i < lines.len()
        invariant
            i <= lines@.len(),
            logs@ == appended(before, lines@.take(i as int)),
        decreases lines@.len() - i,
    {
        proof {
            assert(lines@.take(i as int + 1).drop_last() =~= lines@.take(i as int));
        }
        let mut line = lines[i].clone();
        line.sequence = bump(logs.len());
        logs.push(line);
        i = i + 1;
    }
    proof {
        assert(lines@.take(lines@.len() as int) =~= lines@);
    }
}

/// The line that says why a task failed.
pub open spec fn is_error_log(
    log: BatchExecutionLog,
    sequence: usize,
    batch: usize,
    token: Seq<char>,
    message: Seq<char>,
    now: i64,
) -> bool {
    let zero = Double { bits: ZERO };
    &&& log.sequence == sequence
    &&& log.batch == batch
    &&& log.timestamp == now
    &&& log.exchange@ == "System"@
    &&& log.side@ == "error"@
    &&& log.token@ == token
    &&& log.notional_usdt == zero
    &&& log.executed_quantity == zero
    &&& log.average_price == zero
    &&& log.status@ == "failed"@
    &&& log.order_id@ == Seq::<char>::empty()
    &&& log.message@ == message
}

pub fn error_log(sequence: usize, batch: usize, token: &str, message: &str, now: i64) -> (log:
    BatchExecutionLog)
    ensures
        is_error_log(log, sequence, batch, token@, message@, now),
{
    let zero = Double { bits: ZERO };
    BatchExecutionLog {
        sequence,
        batch,
        timestamp: now,
        exchange: "System".to_owned(),
        side: "error".to_owned(),
        token: token.to_owned(),
        notional_usdt: zero,
        executed_quantity: zero,
        average_price: zero,
        status: "failed".to_owned(),
        order_id: String::new(),
        message: message.to_owned(),
    }
}

} // verus!
