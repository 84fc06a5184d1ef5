use arbiview::account_stream::AccountBalance;
use arbiview::config::{Config, Setting};
use arbiview::failure::{Failure, Reason};
use arbiview::models::{
    AdjustPositionRequest, BatchIncreaseRequest, BatchIncreaseTask, BatchReduceRequest,
    FeeAssumptions, Leg, OpenTradeRequest, OpportunitiesResponse, Opportunity, OrderExecution, Position,
    PositionLeg, PositionQuote, Token, TradeResponse,
};
use arbiview::num::Double;
use arbiview::trading::account::{paper_exchange_balances, AccountFindings, AccountSource};
use arbiview::trading::batch::{
    check_increase, check_reduce, BatchKind, BatchOutcome, IncreaseAction, IncreaseRun, ReductionAction, ReductionRun,
};
use arbiview::trading::guard::{GuardAction, GuardRun};
use arbiview::trading::income::IncomeSummary;
use arbiview::trading::no_loss::{NoLossAction, NoLossRun};
use arbiview::trading::paper::{live_leverage_answer, measure, Answer, MarketMetrics};
use arbiview::trading::plan::Outcome;
use arbiview::trading::protection::{
    complete_protection_event, inspect, new_event, on_protective_order, ProtectionStep,
};
use arbiview::trading::rules::{next_close, on_close_order, rearm, CloseOrder};
use arbiview::trading::service::TradingService;
use arbiview::trading::tasks::set_status;

fn d(x: f64) -> Double {
    Double::from_bits(x.to_bits())
}

fn f(x: Double) -> f64 {
    f64::from_bits(x.bits)
}

fn market_leg(exchange: &str, market: &str, bid: f64, ask: f64) -> Leg {
    Leg {
        exchange: exchange.to_string(),
        market: market.to_string(),
        base: "ABC".to_string(),
        symbol: "ABCUSDT".to_string(),
        bid: d(bid),
        ask: d(ask),
        bid_quantity: d(100.0),
        ask_quantity: d(100.0),
        mark: d(bid),
        rate: d(0.0),
        interval_hours: d(8.0),
        next_funding_time: 0,
        qty_step: d(0.1),
        tags: vec![],
        volume_24h_usdt: d(0.0),
    }
}

fn held_leg(exchange: &str, market: &str, side: &str, quantity: f64, price: f64) -> PositionLeg {
    PositionLeg {
        exchange: exchange.to_string(),
        market: market.to_string(),
        symbol: "ABCUSDT".to_string(),
        side: side.to_string(),
        quantity: d(quantity),
        entry_price: d(price),
        mark_price: d(price),
        unrealized_pnl: d(0.0),
        funding_earned: d(0.0),
        funding_rate: d(0.0),
        leverage: 5,
    }
}

fn held(long: PositionLeg, short: PositionLeg, notional: f64) -> Position {
    Position {
        id: "live-ABC".to_string(),
        token: "ABC".to_string(),
        status: "open".to_string(),
        opened_at: 0,
        notional_usdt: d(notional),
        leverage: 5,
        long,
        short,
        funding_earned: d(0.0),
        unrealized_pnl: d(0.0),
        current_pnl_usdt: d(0.0),
        current_roi: d(0.0),
        roi_basis_usdt: d(0.0),
        current_funding_per_hour: None,
        current_spread: None,
        current_apy: None,
    }
}

fn offer() -> Opportunity {
    Opportunity {
        id: "ABC-offer".to_string(),
        token: Token { symbol: "ABC".to_string(), name: "Abc".to_string(), rank: None, tags: vec![] },
        long: market_leg("Binance", "perpetual", 9.9, 10.0),
        short: market_leg("Bybit", "perpetual", 10.1, 10.2),
        funding_per_hour: d(0.0001),
        borrow_interest_per_hour: d(0.0),
        apy: d(0.8),
        apy_horizon_hours: 1,
        spread: d(0.01),
        average_spread_24h: d(0.0),
        spread_vs_average: d(0.01),
        fees: d(0.0021),
        break_even_hours: d(10.0),
        route_type: "cross_perpetual".to_string(),
        execution_supported: true,
    }
}

fn order(exchange: &str, status: &str, quantity: f64, price: f64) -> OrderExecution {
    OrderExecution {
        exchange: exchange.to_string(),
        client_order_id: "av1".to_string(),
        order_id: "1".to_string(),
        status: status.to_string(),
        executed_quantity: d(quantity),
        average_price: d(price),
    }
}

fn desk(settings: &[(&str, &str)]) -> TradingService {
    let settings = settings
        .iter()
        .map(|(name, value)| Setting { name: name.to_string(), value: value.to_string(), number: None })
        .collect();
    TradingService::new(Config::from_env(&settings).unwrap(), vec![], vec![], vec![])
}

fn live_desk() -> TradingService {
    desk(&[
        ("ARBIVIEW_TRADING_MODE", "live"),
        ("BINANCE_API_KEY", "k"),
        ("BINANCE_API_SECRET", "s"),
        ("BYBIT_API_KEY", "k"),
        ("BYBIT_API_SECRET", "s"),
    ])
}

fn fault<T>(result: Result<T, Failure>) -> String {
    match result {
        Ok(_) => panic!("this should fail"),
        Err(failure) => failure.message(),
    }
}

fn request(notional: f64) -> OpenTradeRequest {
    OpenTradeRequest {
        opportunity_id: "ABC-offer".to_string(),
        notional_usdt: d(notional),
        leverage: 5,
        spread_guard: false,
        spread_threshold: None,
    }
}

fn snapshot() -> OpportunitiesResponse {
    OpportunitiesResponse {
        opportunities: vec![],
        spot_opportunities: vec![offer()],
        spread_opportunities: vec![],
        updated_at: 0,
        universe_size: 1,
        matched_pairs: 1,
        assumptions: FeeAssumptions { binance_taker_fee: d(0.0005), bybit_taker_fee: d(0.00055) },
    }
}

fn increase(target: f64, batch: f64, guard: bool) -> BatchIncreaseRequest {
    BatchIncreaseRequest {
        opportunity_id: "ABC-offer".to_string(),
        target_notional_usdt: d(target),
        order_notional_usdt: d(batch),
        interval_seconds: d(2.0),
        leverage: 5,
        spread_guard: guard,
        spread_threshold: None,
    }
}

fn reduction(target: f64, batch: f64, close_all: bool) -> BatchReduceRequest {
    BatchReduceRequest {
        position_id: "live-ABC".to_string(),
        target_notional_usdt: d(target),
        close_all,
        order_notional_usdt: d(batch),
        interval_seconds: d(2.0),
        no_loss_guard: false,
        close_spread_threshold: None,
        minimum_roi: None,
    }
}

fn pair(quantity: f64) -> Position {
    held(
        held_leg("Binance", "perpetual", "long", quantity, 10.0),
        held_leg("Bybit", "perpetual", "short", quantity, 10.0),
        quantity * 10.0,
    )
}

fn response(position: Position) -> TradeResponse {
    TradeResponse { position, mode: "paper".to_string(), message: String::new(), execution: None }
}

fn done(answer: Result<Answer, Failure>) -> TradeResponse {
    match answer.unwrap() {
        Answer::Done(response) => response,
        Answer::Live => panic!("this desk trades on paper"),
    }
}

#[test]
fn a_paper_position_is_opened_increased_reduced_and_closed() {
    let mut desk = desk(&[]);
    let opened = done(desk.open(&request(100.0), d(0.01), &offer(), "p1".to_string(), 7));
    assert_eq!((opened.mode.as_str(), opened.message.as_str()), ("paper", "模拟双腿仓位已建立，未发送真实订单"));
    assert_eq!((opened.position.id.as_str(), opened.position.opened_at), ("p1", 7));
    assert_eq!((f(opened.position.long.quantity), f(opened.position.long.entry_price)), (10.0, 10.0));
    assert_eq!(f(opened.position.roi_basis_usdt), 40.0);
    assert!(desk.managed_symbols.contains(&"ABCUSDT".to_string()));
    let mut dearer = offer();
    dearer.long.ask = d(20.0);
    let more = done(desk.open(&request(100.0), d(0.01), &dearer, "p2".to_string(), 8));
    assert_eq!((more.position.id.as_str(), more.message.as_str()), ("p1", "模拟双腿已加仓"));
    assert_eq!(f(more.position.notional_usdt), 200.0);
    assert_eq!(f(more.position.long.quantity), 15.0);
    assert!((f(more.position.long.entry_price) - 40.0 / 3.0).abs() < 1e-9);
    let less = done(desk.reduce("p1", &AdjustPositionRequest { notional_usdt: d(50.0) }));
    assert_eq!((f(less.position.notional_usdt), f(less.position.long.quantity)), (150.0, 11.25));
    assert_eq!(
        fault(desk.reduce("p1", &AdjustPositionRequest { notional_usdt: d(150.0) })),
        "reduction must be smaller than the position; use close for a full exit"
    );
    assert_eq!(
        fault(desk.reduce("p1", &AdjustPositionRequest { notional_usdt: d(9.0) })),
        "notionalUsdt must be at least 10"
    );
    let levered = done(desk.adjust_leverage("p1", 10));
    assert_eq!((levered.position.leverage, levered.position.short.leverage), (10, 10));
    assert_eq!(levered.message, "模拟双腿杠杆已调整为 10×");
    assert_eq!(fault(desk.adjust_leverage("p1", 0)), "leverage must be between 1 and 20");
    let closed = done(desk.close("p1"));
    assert_eq!((closed.position.status.as_str(), closed.message.as_str()), ("closed", "模拟仓位已平仓"));
    assert_eq!(fault(desk.close("p1")), "position not found");
}

#[test]
fn a_live_desk_leaves_trades_to_the_exchanges() {
    let mut desk = live_desk();
    assert!(matches!(desk.open(&request(100.0), d(0.01), &offer(), "x".to_string(), 7), Ok(Answer::Live)));
    assert!(matches!(desk.close("x"), Ok(Answer::Live)));
    assert!(matches!(desk.adjust_leverage("x", 5), Ok(Answer::Live)));
    assert!(desk.paper_positions.is_empty());
    let answer = live_leverage_answer(pair(10.0), 7, Ok(())).unwrap();
    assert_eq!((answer.position.long.leverage, answer.message.as_str()), (7, "两家交易所杠杆已调整为 7×"));
    let refused = live_leverage_answer(pair(10.0), 7, Err(Failure::new(Reason::ZeroQuantity)));
    assert_eq!(
        refused.err().unwrap().detail(),
        "failed to adjust both legs' leverage: calculated order quantity is zero"
    );
}

#[test]
fn nothing_is_claimed_of_a_route_that_the_market_does_not_know() {
    let desk = desk(&[]);
    let mut position = pair(10.0);
    let metrics = MarketMetrics { funding_per_hour: d(0.001), spread: d(0.002), apy: d(8.76) };
    measure(&mut position, Some(metrics));
    assert_eq!(position.current_apy.map(f), Some(8.76));
    measure(&mut position, None);
    assert!(position.current_apy.is_none() && position.current_spread.is_none());
    assert!(desk.positions(vec![], &vec![]).is_empty());
    let live = live_desk();
    assert_eq!(live.held(vec![pair(1.0)]).len(), 1);
    assert_eq!(live.positions(vec![pair(1.0)], &vec![Some(metrics)])[0].current_spread.map(f), Some(0.002));
}

#[test]
fn one_batch_task_holds_the_desk() {
    let mut desk = desk(&[]);
    let first = desk.start_batch_increase(&increase(100.0, 30.0, false), &snapshot(), "t1".to_string(), 5).unwrap();
    assert!(first.fresh);
    assert_eq!((first.task.status.as_str(), first.task.action.as_str(), first.task.total_batches), ("queued", "increase", 4));
    let again = desk.start_batch_increase(&increase(200.0, 30.0, false), &snapshot(), "t2".to_string(), 6).unwrap();
    assert!(!again.fresh);
    assert_eq!(again.task.id, "t1");
    assert_eq!(
        fault(desk.start_batch_reduce(&reduction(50.0, 10.0, false), &vec![pair(10.0)], "t3".to_string(), 6)),
        "another batch position task is already active"
    );
    assert_eq!(desk.cancel_batch_task("t1", 9).unwrap().status, "cancelling");
    assert!(desk.batch_task("t1").unwrap().cancel_requested);
    assert_eq!(fault(desk.batch_task("t9")), "batch task not found");
    assert_eq!(fault(desk.cancel_batch_task("t9", 9)), "batch task not found");
    set_status(&mut desk.batch_tasks[0], "cancelled", 10);
    let next = desk.start_batch_reduce(&reduction(50.0, 10.0, false), &vec![pair(10.0)], "t3".to_string(), 11).unwrap();
    assert_eq!((next.task.action.as_str(), next.task.total_batches), ("reduce", 5));
    let order: Vec<String> = desk.batch_tasks().into_iter().map(|task| task.id).collect();
    assert_eq!(order, vec!["t3", "t1"]);
}

#[test]
fn batch_requests_have_to_be_in_range() {
    let check = |request: BatchIncreaseRequest| fault(check_increase(&request));
    assert_eq!(check(increase(9.0, 9.0, false)), "targetNotionalUsdt must be between 10 and 1,000,000");
    assert_eq!(check(increase(100.0, 101.0, false)), "orderNotionalUsdt must be between 10 and targetNotionalUsdt");
    let mut hasty = increase(100.0, 20.0, false);
    hasty.interval_seconds = d(0.4);
    assert_eq!(check(hasty), "intervalSeconds must be between 0.5 and 3,600");
    let mut levered = increase(100.0, 20.0, false);
    levered.leverage = 0;
    assert_eq!(check(levered), "leverage must be between 1 and 20");
    assert!(check_increase(&increase(100.0, 0.0, true)).is_ok());
    assert_eq!(
        fault(check_reduce(&reduction(95.0, 20.0, false), &pair(10.0), d(10.0))),
        "targetNotionalUsdt must leave at least 10.00 USDT per leg; use close for a full exit"
    );
    assert_eq!(f(check_reduce(&reduction(1.0, 20.0, true), &pair(10.0), d(10.0)).unwrap()), 100.0);
    let mut desk = desk(&[]);
    assert_eq!(
        fault(desk.start_batch_reduce(&reduction(50.0, 10.0, false), &vec![], "t".to_string(), 1)),
        "position not found"
    );
    let mut gone = increase(100.0, 20.0, false);
    gone.opportunity_id = "other".to_string();
    assert_eq!(
        fault(desk.start_batch_increase(&gone, &snapshot(), "t".to_string(), 1)),
        "opportunity is no longer available"
    );
}

fn task() -> BatchIncreaseTask {
    let mut desk = desk(&[]);
    desk.start_batch_increase(&increase(100.0, 60.0, false), &snapshot(), "t1".to_string(), 5).unwrap().task
}

/// The next step of an increase that takes the offer it was taken on with.
fn step(run: &mut IncreaseRun, task: &mut BatchIncreaseTask, now: i64) -> OpenTradeRequest {
    assert!(matches!(run.next(), IncreaseAction::Look));
    run.look(task, now);
    assert!(matches!(run.next(), IncreaseAction::TakeOffer));
    assert!(matches!(run.take_offer(task, now), BatchOutcome::Continue));
    match run.next() {
        IncreaseAction::Open { request, .. } => request,
        other => panic!("{other:?}"),
    }
}

#[test]
fn an_increase_goes_on_until_its_target() {
    let mut task = task();
    let mut run = IncreaseRun::new(offer(), &increase(100.0, 60.0, false), None);
    assert_eq!(f(step(&mut run, &mut task, 6).notional_usdt), 60.0);
    let outcome = run.on_opened(&mut task, &response(pair(6.0)), 7);
    assert!(matches!(outcome, BatchOutcome::Pause) && run.unfinished());
    assert_eq!((task.completed_batches, f(task.completed_notional_usdt), task.logs.len()), (1, 60.0, 2));
    assert_eq!(f(step(&mut run, &mut task, 8).notional_usdt), 40.0);
    let outcome = run.on_opened(&mut task, &response(pair(10.0)), 9);
    assert!(matches!(outcome, BatchOutcome::Continue) && !run.unfinished());
    assert_eq!(task.logs[3].sequence, 4);
    assert!(matches!(run.next(), IncreaseAction::Conclude));
    run.conclude(&mut task, 10);
    assert_eq!((task.status.as_str(), task.updated_at), ("completed", 10));
    assert!(matches!(run.next(), IncreaseAction::Stop));
}

#[test]
fn what_is_held_already_does_not_count_as_opened() {
    let mut task = task();
    let held = pair(3.0);
    let mut run = IncreaseRun::new(offer(), &increase(100.0, 60.0, false), Some(&held));
    step(&mut run, &mut task, 6);
    run.on_opened(&mut task, &response(pair(6.0)), 7);
    assert_eq!(f(task.completed_notional_usdt), 30.0);
}

#[test]
fn a_guarded_increase_waits_for_its_spread() {
    let mut task = task();
    let mut run = IncreaseRun::new(offer(), &increase(100.0, 0.0, true), None);
    let mut narrow = offer();
    narrow.spread = d(0.009);
    run.look(&mut task, 6);
    assert!(matches!(run.next(), IncreaseAction::FindQuote));
    assert!(matches!(run.on_quote(&mut task, Some(narrow), 6), BatchOutcome::Poll));
    assert_eq!(task.spread_wait_count, 1);
    run.look(&mut task, 6);
    assert!(matches!(run.on_quote(&mut task, None, 6), BatchOutcome::Poll));
    let wait = Failure::new(Reason::SpreadNoFill);
    run.look(&mut task, 6);
    run.on_quote(&mut task, Some(offer()), 6);
    assert!(matches!(run.on_refused(&mut task, &wait, 7), BatchOutcome::Poll));
    assert_eq!((run.batch, task.status.as_str()), (0, "queued"));
    run.look(&mut task, 7);
    run.on_quote(&mut task, Some(offer()), 7);
    let broken = Failure::new(Reason::BybitWalletMissing);
    assert!(matches!(run.on_refused(&mut task, &broken, 8), BatchOutcome::Stop));
    assert_eq!((task.status.as_str(), task.error.as_deref()), ("failed", Some("Bybit wallet missing")));
    assert_eq!(task.logs.last().unwrap().exchange, "System");
    assert!(matches!(run.next(), IncreaseAction::Stop));
}

#[test]
fn a_reduction_ends_with_a_close_where_all_is_closed() {
    let mut task = task();
    let mut run = ReductionRun::new(pair(10.0), d(100.0), d(60.0), true);
    assert_eq!(run.next(), ReductionAction::Look);
    run.look(&mut task, 6);
    assert_eq!(run.next(), ReductionAction::Reduce(d(60.0)));
    assert!(matches!(run.on_reduced(&mut task, &response(pair(4.0)), 6), BatchOutcome::Pause));
    run.look(&mut task, 7);
    assert_eq!(run.next(), ReductionAction::Close);
    assert!(matches!(run.on_reduced(&mut task, &response(pair(0.0)), 7), BatchOutcome::Continue));
    assert!(!run.unfinished() && task.current_position.is_none());
    assert_eq!(f(task.completed_notional_usdt), 100.0);
    assert_eq!(run.next(), ReductionAction::Conclude);
    run.conclude(&mut task, 8);
    assert_eq!((task.status.as_str(), run.next()), ("completed", ReductionAction::Stop));
    let mut run = ReductionRun::new(pair(10.0), d(100.0), d(60.0), true);
    run.look(&mut task, 8);
    run.on_refused(&mut task, &Failure::new(Reason::PositionNotFound), 8);
    assert_eq!(task.error.as_deref(), Some("position not found"));
    assert_eq!(run.next(), ReductionAction::Stop);
}

#[test]
fn a_cancelled_task_ends_before_its_next_step() {
    let mut task = task();
    task.cancel_requested = true;
    let mut run = ReductionRun::new(pair(10.0), d(100.0), d(60.0), true);
    run.look(&mut task, 6);
    assert_eq!((task.status.as_str(), run.next()), ("cancelled", ReductionAction::Stop));
    let mut run = IncreaseRun::new(offer(), &increase(100.0, 60.0, false), None);
    run.look(&mut task, 6);
    assert!(matches!(run.next(), IncreaseAction::Stop));
    let mut run = guard_run(100.0, &mut task);
    run.look(&mut task, 6);
    assert!(matches!(run.next(), GuardAction::Stop) && task.status == "cancelled");
    let mut run = no_loss(true, &mut task);
    run.look(&mut task, 6);
    assert!(matches!(run.next(), NoLossAction::Stop) && task.status == "cancelled");
}

#[test]
fn only_a_live_desk_trades_under_a_guard() {
    let (paper, live) = (desk(&[]), live_desk());
    assert_eq!(paper.increase_kind(&increase(100.0, 0.0, true)), BatchKind::Stepwise);
    assert_eq!(live.increase_kind(&increase(100.0, 0.0, true)), BatchKind::Guarded);
    assert_eq!(live.increase_kind(&increase(100.0, 60.0, false)), BatchKind::Stepwise);
    let mut close = reduction(100.0, 60.0, true);
    assert_eq!(live.reduction_kind(&close), BatchKind::Stepwise);
    close.no_loss_guard = true;
    assert_eq!(live.reduction_kind(&close), BatchKind::Guarded);
    assert_eq!(paper.reduction_kind(&close), BatchKind::Stepwise);
    assert_eq!(paper.account_source(), AccountSource::Simulation);
    assert_eq!(live.account_source(), AccountSource::Exchanges);
}

#[test]
fn a_paper_report_does_not_depend_on_the_keys() {
    let report = |key: &str| {
        let mut desk = desk(&[
            ("BINANCE_API_KEY", key),
            ("BINANCE_API_SECRET", key),
            ("BYBIT_API_KEY", key),
            ("BYBIT_API_SECRET", key),
        ]);
        format!("{:?}", desk.account_summary(AccountFindings::Simulation { positions: vec![pair(10.0)] }))
    };
    assert_eq!(report("first"), report("second"));
    assert!(!report("first").contains("first") && report("first").contains("[\"Binance\", \"Bybit\"]"));
}

/// A guarded opening past its checks.
fn guard_run(target: f64, task: &mut BatchIncreaseTask) -> GuardRun {
    let mut run = GuardRun::new(offer(), &increase(target, 0.0, true));
    assert!(matches!(run.next(), GuardAction::Begin));
    run.begin(task, 5);
    assert_eq!(task.status, "running");
    assert!(matches!(run.next(), GuardAction::FindBalances));
    run.on_balances(task, Ok((d(1000.0), d(1000.0))), 5).unwrap();
    assert!(matches!(run.next(), GuardAction::SetLeverage { leverage: 5 }));
    run.on_leverage(task, Ok(()), 5).unwrap();
    run
}

/// A guarded opening that has its orders to send.
fn quoted(target: f64, task: &mut BatchIncreaseTask) -> GuardRun {
    let mut run = guard_run(target, task);
    run.look(task, 6);
    assert!(matches!(run.next(), GuardAction::FindQuote));
    assert_eq!(run.on_quote(task, Some(offer()), 6), 0);
    run
}

#[test]
fn a_guarded_batch_is_at_most_fifty_and_hedged() {
    let mut task = task();
    let mut run = quoted(55.0, &mut task);
    let GuardAction::Send { long, short } = run.next() else { panic!() };
    let (long, short) = (long.unwrap(), short.unwrap());
    assert_eq!((f(long.quantity), long.limit_price.map(f), long.side.as_str()), (5.0, Some(10.0), "Buy"));
    assert!((f(short.quantity) - 4.9).abs() < 1e-9);
    let filled = Outcome::Filled(order("Binance", "FILLED", 5.0, 10.0));
    let missed = Outcome::Failed("x order ended with status=EXPIRED".to_string());
    assert_eq!(run.on_orders(&mut task, Some(filled), Some(missed), 7), 0);
    let GuardAction::Supplement { order: Some(plan) } = run.next() else { panic!() };
    assert_eq!((plan.side.as_str(), plan.exchange.as_str(), plan.limit_price.is_none(), plan.reduce_only), ("Sell", "Bybit", true, false));
    assert!((f(plan.quantity) - 4.9).abs() < 1e-9);
    run.on_supplement(Some(order("Bybit", "Filled", 5.0, 10.1)), 8);
    assert!(matches!(run.next(), GuardAction::CheckResidual));
    run.check_residual(&mut task, 9);
    assert!(matches!(run.next(), GuardAction::Settle));
    assert_eq!(run.settle(&mut task, None, 10), 0);
    assert_eq!((f(task.completed_notional_usdt), task.logs.len()), (50.0, 2));
    assert!((f(task.cumulative_filled_spread.unwrap()) - 0.01).abs() < 1e-9);
    assert!(!run.unfinished() && matches!(run.next(), GuardAction::Conclude));
    run.conclude(&mut task, 11);
    assert_eq!(task.status, "completed");
    assert!(matches!(run.next(), GuardAction::Stop));
}

#[test]
fn a_guarded_opening_goes_no_further_than_its_checks() {
    let gone = || Failure::new(Reason::BybitWalletMissing);
    let start = |task: &mut BatchIncreaseTask| {
        let mut borrowed = offer();
        borrowed.short = market_leg("Binance", "spot", 10.0, 10.1);
        let mut run = GuardRun::new(borrowed, &increase(100.0, 0.0, true));
        run.begin(task, 5);
        run
    };
    let mut told = task();
    let mut run = start(&mut told);
    assert!(run.on_balances(&mut told, Ok((d(20.0), d(0.0))), 6).is_err());
    assert!(matches!(run.next(), GuardAction::Stop) && told.status == "failed");
    assert!(told.error.unwrap().starts_with("Binance available balance 20.00 is below"));
    let mut told = task();
    let mut run = start(&mut told);
    run.on_balances(&mut told, Ok((d(21.0), d(0.0))), 6).unwrap();
    assert!(matches!(run.next(), GuardAction::FindBorrowable { base } if base == "ABC"));
    assert!(run.on_borrowable(&mut told, Err(gone()), 6).is_err());
    assert!(matches!(run.next(), GuardAction::Stop) && told.status == "failed");
    let mut told = task();
    let mut run = start(&mut told);
    run.on_balances(&mut told, Ok((d(21.0), d(0.0))), 6).unwrap();
    run.on_borrowable(&mut told, Ok(d(10.0)), 6).unwrap();
    assert!(run.on_leverage(&mut told, Err(gone()), 6).is_err());
    assert_eq!(
        told.error.as_deref(),
        Some("failed to configure leverage; no orders were sent: Bybit wallet missing")
    );
}

#[test]
fn a_leg_that_cannot_be_supplemented_is_an_exposure() {
    let mut task = task();
    let mut run = quoted(100.0, &mut task);
    run.on_orders(&mut task, Some(Outcome::Filled(order("Binance", "FILLED", 5.0, 10.0))), None, 7);
    for _ in 0..3 {
        assert!(matches!(run.next(), GuardAction::Supplement { order: Some(_) }));
        run.on_supplement(None, 8);
    }
    assert!(matches!(run.next(), GuardAction::CheckResidual));
    run.check_residual(&mut task, 9);
    assert_eq!(
        task.error.as_deref(),
        Some("NAKED_EXPOSURE: immediate market supplement failed after 3 attempts; residual mismatch 50.00 USDT")
    );
    assert!(matches!(run.next(), GuardAction::Stop) && task.status == "failed");
}

#[test]
fn empty_attempts_back_off_and_unexpected_ones_end_the_task() {
    let mut task = task();
    let mut run = guard_run(100.0, &mut task);
    let again = |run: &mut GuardRun, task: &mut BatchIncreaseTask, text: &str| {
        run.look(task, 6);
        run.on_quote(task, Some(offer()), 6);
        run.on_orders(task, Some(Outcome::Failed(text.to_string())), None, 7)
    };
    for millis in [500, 1000, 2000, 4000, 4000] {
        assert_eq!(again(&mut run, &mut task, "Bybit order ended with status=Cancelled"), millis);
    }
    let mut run = guard_run(100.0, &mut task);
    for _ in 0..3 {
        again(&mut run, &mut task, "Binance API HTTP 500: boom");
    }
    assert!(matches!(run.next(), GuardAction::Stop) && task.status == "failed");
    assert_eq!(
        task.error.as_deref(),
        Some("IOC order failed repeatedly; no position was opened in the last 3 attempts: Binance API HTTP 500: boom")
    );
}

fn no_loss(close_all: bool, task: &mut BatchIncreaseTask) -> NoLossRun {
    let markets = vec![
        market_leg("Binance", "perpetual", 11.0, 11.1),
        market_leg("Bybit", "perpetual", 10.0, 10.5),
    ];
    NoLossRun::start(task, pair(10.0), Ok(markets), d(100.0), close_all, None, 5).unwrap()
}

#[test]
fn a_close_without_loss_needs_both_markets() {
    let mut told = task();
    let one = vec![market_leg("Binance", "perpetual", 11.0, 11.1)];
    let refused = NoLossRun::start(&mut told, pair(10.0), Ok(one), d(100.0), true, None, 5);
    assert_eq!(fault(refused), "short contract metadata unavailable");
    assert_eq!((told.status.as_str(), told.error.as_deref()), ("failed", Some("short contract metadata unavailable")));
}

#[test]
fn a_close_without_loss_waits_for_a_profit() {
    let mut task = task();
    let mut run = no_loss(true, &mut task);
    run.look(&mut task, 6);
    assert!(matches!(run.next(), NoLossAction::FindQuotes));
    assert_eq!(run.on_quotes(&mut task, Some((d(9.0), d(11.0))), 6), 250);
    assert_eq!(task.spread_wait_count, 1);
    let mut run = no_loss(true, &mut task);
    run.look(&mut task, 6);
    assert_eq!(run.on_quotes(&mut task, Some((d(10.5), d(10.0))), 6), 0);
    let NoLossAction::Send { long, short } = run.next() else { panic!() };
    let (long, short) = (long.unwrap(), short.unwrap());
    assert_eq!((long.side.as_str(), long.reduce_only, long.limit_price.map(f)), ("Sell", true, Some(10.5)));
    assert_eq!((short.side.as_str(), short.reduce_only, short.limit_price.map(f)), ("Buy", true, Some(10.0)));
    run.on_orders(Some(order("Binance", "FILLED", 4.0, 10.5)), Some(order("Bybit", "Filled", 4.2, 10.0)), 7);
    assert!(matches!(run.next(), NoLossAction::CheckResidual));
    run.check_residual(&mut task, None, 8);
    assert!(matches!(run.next(), NoLossAction::Settle));
    assert_eq!(run.settle(&mut task, None, 9), 0);
    assert_eq!(f(task.completed_notional_usdt), 42.0);
    assert!(f(task.current_close_pnl_usdt.unwrap()) > 1.9);
    assert!(matches!(run.next(), NoLossAction::Look));
}

#[test]
fn a_full_close_that_leaves_nothing_is_done() {
    let mut task = task();
    let uneven = |close_all: bool, task: &mut BatchIncreaseTask| {
        let mut run = no_loss(close_all, task);
        run.look(task, 6);
        run.on_quotes(task, Some((d(10.5), d(10.0))), 6);
        run.on_orders(Some(order("Binance", "FILLED", 4.0, 10.5)), None, 7);
        let NoLossAction::Supplement { order: Some(plan) } = run.next() else { panic!() };
        assert_eq!((plan.side.as_str(), plan.reduce_only), ("Buy", true));
        for _ in 0..3 {
            run.on_supplement(None, 7);
        }
        run
    };
    let mut run = uneven(true, &mut task);
    assert!(matches!(run.next(), NoLossAction::FindPositions));
    run.check_residual(&mut task, Some(&vec![]), 8);
    assert_eq!((task.status.as_str(), f(task.completed_notional_usdt)), ("completed", 100.0));
    assert!(run.gone && matches!(run.next(), NoLossAction::Stop));
    let mut run = uneven(true, &mut task);
    run.check_residual(&mut task, Some(&vec![pair(10.0)]), 8);
    assert_eq!(task.status, "failed");
    let mut run = uneven(false, &mut task);
    assert!(matches!(run.next(), NoLossAction::CheckResidual));
    run.check_residual(&mut task, None, 8);
    assert_eq!(
        task.error.as_deref(),
        Some("NAKED_EXPOSURE: immediate market close supplement failed after 3 attempts; residual mismatch 42.00 USDT")
    );
}

fn with_apy(apy: Option<f64>) -> Vec<Position> {
    let mut position = pair(10.0);
    position.current_apy = apy.map(d);
    vec![position]
}

#[test]
fn a_rule_is_set_off_by_three_low_readings_in_a_row() {
    let mut desk = desk(&[]);
    let rule = desk.set_auto_close("live-ABC", d(50.0), d(100.0), d(2.0), &with_apy(None), "r1".to_string(), 1).unwrap();
    assert_eq!(rule.status, "armed");
    assert!(desk.evaluate_auto_close_rules(&with_apy(Some(0.4)), 2).is_empty());
    assert!(desk.evaluate_auto_close_rules(&with_apy(Some(0.4)), 3).is_empty());
    assert!(desk.evaluate_auto_close_rules(&with_apy(None), 4).is_empty());
    assert_eq!(desk.auto_close_rules()[0].consecutive_low_readings, 0);
    for now in 5..7 {
        assert!(desk.evaluate_auto_close_rules(&with_apy(Some(0.4)), now).is_empty());
    }
    let triggered = desk.evaluate_auto_close_rules(&with_apy(Some(0.4)), 7);
    assert_eq!((triggered.len(), triggered[0].id.as_str()), (1, "r1"));
    assert_eq!((desk.auto_close_rules()[0].status.as_str(), desk.auto_close_rules()[0].triggered_at), ("triggered", Some(7)));
    assert!(desk.evaluate_auto_close_rules(&with_apy(Some(0.4)), 8).is_empty());
}

#[test]
fn a_rule_replaces_the_one_before_it_and_can_be_cancelled() {
    let mut desk = desk(&[]);
    desk.set_auto_close("live-ABC", d(50.0), d(100.0), d(2.0), &with_apy(None), "r1".to_string(), 1).unwrap();
    desk.set_auto_close("live-ABC", d(60.0), d(100.0), d(2.0), &with_apy(None), "r2".to_string(), 2).unwrap();
    let states: Vec<(String, String)> = desk.auto_close_rules().into_iter().map(|rule| (rule.id, rule.status)).collect();
    assert_eq!(states, vec![("r2".to_string(), "armed".to_string()), ("r1".to_string(), "replaced".to_string())]);
    assert_eq!(desk.cancel_auto_close("r2", 3).unwrap().status, "cancelled");
    assert_eq!(fault(desk.cancel_auto_close("r2", 3)), "only an armed auto-close rule can be cancelled");
    assert_eq!(fault(desk.cancel_auto_close("r9", 3)), "auto-close rule not found");
    let mut set = |apy: f64, size: f64, pause: f64, id: &str| {
        fault(desk.set_auto_close(id, d(apy), d(size), d(pause), &with_apy(None), "r".to_string(), 1))
    };
    assert_eq!(set(200_000.0, 100.0, 2.0, "live-ABC"), "threshold APY must be between -100000% and 100000%");
    assert_eq!(set(50.0, 9.0, 2.0, "live-ABC"), "order notional must be between 10 and 1,000,000 USDT");
    assert_eq!(set(50.0, 100.0, 0.4, "live-ABC"), "interval must be between 0.5 and 3,600 seconds");
    assert_eq!(set(50.0, 100.0, 2.0, "live-X"), "position not found");
}

#[test]
fn a_rule_that_was_being_carried_out_is_armed_again() {
    let mut first = desk(&[]);
    let rule = first.set_auto_close("live-ABC", d(50.0), d(100.0), d(2.0), &with_apy(None), "r1".to_string(), 1).unwrap();
    let with_status = |status: &str| {
        let mut rule = rule.clone();
        rule.status = status.to_string();
        rule
    };
    for (before, after) in [("triggered", "armed"), ("closing", "armed"), ("completed", "completed"), ("failed", "failed")] {
        assert_eq!(rearm(&vec![with_status(before)])[0].status, after);
    }
    let settings = vec![];
    let config = Config::from_env(&settings).unwrap();
    let next = TradingService::new(config, vec![with_status("closing")], vec![" xyzusdt ".to_string(), "".to_string()], vec![]);
    assert_eq!(next.auto_close_rules[0].status, "armed");
    assert!(next.managed_symbols.contains(&"ABCUSDT".to_string()));
    assert!(next.managed_symbols.contains(&"XYZUSDT".to_string()));
    assert_eq!(next.managed_symbols.len(), 2);
}

#[test]
fn a_rule_is_carried_out_in_steps() {
    let mut desk = desk(&[]);
    let mut rule = desk.set_auto_close("live-ABC", d(50.0), d(40.0), d(2.0), &with_apy(None), "r1".to_string(), 1).unwrap();
    assert!(matches!(next_close(&mut rule, Some(&pair(10.0)), d(10.0), 2), CloseOrder::Reduce(x) if f(x) == 40.0));
    assert!(on_close_order(&mut rule, d(100.0), Ok(&response(pair(6.0))), 3));
    assert_eq!(f(rule.completed_notional_usdt), 40.0);
    assert!(matches!(next_close(&mut rule, Some(&pair(4.0)), d(10.0), 4), CloseOrder::Close));
    let mut closed = pair(0.0);
    closed.status = "closed".to_string();
    assert!(!on_close_order(&mut rule, d(40.0), Ok(&response(closed)), 5));
    assert_eq!((rule.status.as_str(), f(rule.completed_notional_usdt)), ("completed", 80.0));
    assert!(!on_close_order(&mut rule, d(40.0), Err(&Failure::new(Reason::CloseNaked)), 6));
    assert_eq!(rule.status, "failed");
    assert!(matches!(next_close(&mut rule, None, d(10.0), 7), CloseOrder::Done));
    assert_eq!(rule.status, "completed");
}

fn both_legs() -> Vec<PositionLeg> {
    vec![
        held_leg("Binance", "perpetual", "long", 10.0, 10.0),
        held_leg("Bybit", "perpetual", "short", 10.0, 10.0),
    ]
}

#[test]
fn only_an_orphan_leg_is_reduced() {
    let mut desk = live_desk();
    desk.remember_protected_routes(&both_legs());
    assert_eq!(desk.protected_routes.len(), 1);
    assert!(desk.routes_at_risk(&both_legs()).is_empty());
    assert!(desk.routes_at_risk(&vec![]).is_empty());
    let orphan = vec![both_legs().remove(1)];
    let routes = desk.routes_at_risk(&orphan);
    assert_eq!((routes.len(), routes[0].token.as_str()), (1, "ABC"));
    let metadata = vec![market_leg("Bybit", "perpetual", 10.0, 10.1)];
    let mut event = new_event(&routes[0], "e1".to_string(), 1);
    let ProtectionStep::Place(plan) = inspect(&mut event, &routes[0], &orphan, &metadata, 2) else { panic!() };
    assert_eq!((plan.side.as_str(), f(plan.quantity), plan.reduce_only), ("Buy", 10.0, true));
    assert_eq!((event.event_type.as_str(), event.initial_short_notional_usdt.map(f)), ("orphan_exit", Some(100.0)));
    assert!(on_protective_order(&mut event, Ok(order("Bybit", "Filled", 10.0, 10.0)), 3));
    assert_eq!(event.orders.len(), 1);
    assert!(matches!(inspect(&mut event, &routes[0], &vec![], &metadata, 4), ProtectionStep::Ended));
    assert_eq!((event.status.as_str(), event.message.as_str()), ("completed", "双腿仓位均已归零"));
}

#[test]
fn a_protection_that_cannot_go_on_says_why() {
    let mut desk = live_desk();
    desk.remember_protected_routes(&both_legs());
    let orphan = vec![both_legs().remove(0)];
    let route = desk.routes_at_risk(&orphan).remove(0);
    let mut event = new_event(&route, "e1".to_string(), 1);
    assert!(matches!(inspect(&mut event, &route, &orphan, &vec![], 2), ProtectionStep::Ended));
    assert_eq!((event.status.as_str(), event.message.as_str()), ("failed", "找不到剩余腿的合约元数据"));
    let mut event = new_event(&route, "e2".to_string(), 1);
    assert!(matches!(inspect(&mut event, &route, &both_legs(), &vec![], 2), ProtectionStep::Ended));
    assert_eq!(event.message, "双腿均存在，孤腿保护停止");
    let mut event = new_event(&route, "e3".to_string(), 1);
    assert!(!on_protective_order(&mut event, Err(Failure::new(Reason::ZeroQuantity)), 3));
    assert_eq!(event.message, "保护性 reduceOnly 订单失败：calculated order quantity is zero");
}

#[test]
fn nothing_is_protected_while_a_task_runs_and_old_events_are_dropped() {
    let mut desk = live_desk();
    desk.remember_protected_routes(&both_legs());
    let orphan = vec![both_legs().remove(1)];
    let route = desk.routes_at_risk(&orphan).remove(0);
    for i in 0..105 {
        desk.push_protection_event(new_event(&route, format!("e{i}"), 1));
    }
    assert_eq!((desk.protection_events.len(), desk.protection_events[0].id.as_str()), (100, "e5"));
    let mut event = new_event(&route, "e50".to_string(), 1);
    complete_protection_event(&mut event, "done", 9);
    desk.update_protection_event(event);
    let kept = desk.protection_events.iter().find(|event| event.id == "e50").unwrap();
    assert_eq!((kept.status.as_str(), kept.message.as_str()), ("completed", "done"));
    let status = desk.hedge_protection_status();
    assert!(status.enabled);
    assert_eq!((status.protected_tokens, f(status.order_notional_usdt)), (vec!["ABC".to_string()], 100.0));
    desk.start_batch_increase(&increase(100.0, 30.0, false), &snapshot(), "t1".to_string(), 5).unwrap();
    assert!(desk.routes_at_risk(&orphan).is_empty());
}

fn quotes() -> Vec<PositionQuote> {
    ["Binance", "Bybit"]
        .iter()
        .map(|exchange| PositionQuote {
            exchange: exchange.to_string(),
            symbol: "ABCUSDT".to_string(),
            mark_price: d(11.0),
            last_price: d(11.0),
            reference_price: d(11.0),
            uses_last_price: false,
            bid_price: d(10.9),
            ask_price: d(11.1),
            funding_rate: d(0.0003),
        })
        .collect()
}

fn income(funding: f64) -> IncomeSummary {
    let mut summary = IncomeSummary::new();
    summary.funding_by_symbol = vec![("ABCUSDT".to_string(), d(funding))];
    summary.funding_income = d(funding);
    summary
}

#[test]
fn a_new_leg_earns_funding_from_its_baseline_on() {
    let mut desk = live_desk();
    let legs = both_legs();
    let (binance, bybit) = (vec![legs[0].clone()], vec![legs[1].clone()]);
    let (first, changed) = desk.live_positions(binance.clone(), bybit.clone(), vec![], &income(5.0), &income(1.0), &quotes());
    assert!(changed);
    assert_eq!((first.len(), first[0].id.as_str(), f(first[0].funding_earned)), (1, "live-ABC", 0.0));
    assert_eq!(f(first[0].long.funding_rate), 0.0003);
    let (second, changed) = desk.live_positions(binance, bybit, vec![], &income(7.5), &income(2.0), &quotes());
    assert!(!changed);
    assert_eq!(f(second[0].funding_earned), 3.5);
    let (none, changed) = desk.live_positions(vec![], vec![], vec![], &income(7.5), &income(2.0), &quotes());
    assert!(changed && none.is_empty() && desk.position_funding_baselines.is_empty());
}

#[test]
fn a_leg_without_its_hedge_is_reported() {
    let mut desk = live_desk();
    let balance = AccountBalance { equity: d(1000.0), available: d(400.0), unrealized_pnl: d(0.0) };
    let legs = both_legs();
    let mut lone = legs[0].clone();
    lone.symbol = "XYZUSDT".to_string();
    let summary = desk.account_summary(AccountFindings::Exchanges {
        binance: balance,
        bybit: balance,
        binance_legs: vec![legs[0].clone(), lone],
        bybit_legs: vec![legs[1].clone()],
        margin_legs: vec![],
        binance_income: &income(5.0),
        bybit_income: &income(1.0),
        quotes: &quotes(),
    });
    assert_eq!((summary.mode.as_str(), summary.active_positions, summary.realized_period_days), ("live", 1, 7));
    assert_eq!((summary.unhedged_legs.len(), summary.unhedged_legs[0].symbol.as_str()), (1, "XYZUSDT"));
    assert_eq!((f(summary.equity_usdt), f(summary.available_usdt), f(summary.funding_income)), (2000.0, 800.0, 6.0));
    assert_eq!(summary.configured_exchanges, vec!["Binance", "Bybit"]);
    assert!(desk.managed_symbols.contains(&"ABCUSDT".to_string()));
}

#[test]
fn a_live_report_does_not_depend_on_the_keys() {
    let report = |key: &str| {
        let mut desk = desk(&[
            ("ARBIVIEW_TRADING_MODE", "live"),
            ("BINANCE_API_KEY", key),
            ("BINANCE_API_SECRET", key),
            ("BYBIT_API_KEY", key),
            ("BYBIT_API_SECRET", key),
        ]);
        let balance = AccountBalance { equity: d(1000.0), available: d(400.0), unrealized_pnl: d(0.0) };
        let legs = both_legs();
        let summary = desk.account_summary(AccountFindings::Exchanges {
            binance: balance,
            bybit: balance,
            binance_legs: vec![legs[0].clone()],
            bybit_legs: vec![legs[1].clone()],
            margin_legs: vec![],
            binance_income: &income(5.0),
            bybit_income: &income(1.0),
            quotes: &quotes(),
        });
        format!("{:?} {:?}", summary, desk.managed_symbols)
    };
    assert_eq!(report("first"), report("second"));
    assert!(!report("first").contains("first") && report("first").contains("[\"Binance\", \"Bybit\"]"));
}

#[test]
fn a_paper_account_starts_with_a_hundred_thousand() {
    let desk = desk(&[]);
    let mut position = pair(10.0);
    position.unrealized_pnl = d(25.0);
    let summary = desk.paper_summary(&vec![position.clone()]);
    assert_eq!((summary.mode.as_str(), f(summary.equity_usdt), f(summary.available_usdt)), ("paper", 100_025.0, 99_960.0));
    let balances = paper_exchange_balances(&vec![position]);
    assert_eq!(balances.len(), 2);
    assert_eq!(balances.iter().map(|balance| f(balance.equity_usdt)).sum::<f64>(), 100_000.0);
}
