use arbiview::failure::{http_status, Failure, Reason};
use arbiview::models::{Leg, OpenTradeRequest, Opportunity, OrderExecution, Position, PositionLeg, Token};
use arbiview::num::Double;
use arbiview::trading::guard::MAX_RECONCILIATION_ATTEMPTS;
use arbiview::trading::live::{
    admit_open, check_leverage, check_reduction, is_within, leg_metadata, needs_borrow, preflight_balance,
    preflight_borrow, CloseAction, CloseRun, OpenAction, OpenRun, ReduceAction, ReduceRun,
};
use arbiview::trading::reconcile::{
    ensure_slippage, AlignRun, AlignStep, EvenRun, EvenStep, Sight,
};

fn d(x: f64) -> Double {
    Double::from_bits(x.to_bits())
}

fn f(x: Double) -> f64 {
    f64::from_bits(x.bits)
}

fn market_leg(exchange: &str, market: &str, bid: f64, ask: f64) -> Leg {
    Leg {
        exchange: exchange.to_string(),
        market: market.to_string(),
        base: "ABC".to_string(),
        symbol: "ABCUSDT".to_string(),
        bid: d(bid),
        ask: d(ask),
        bid_quantity: d(100.0),
        ask_quantity: d(100.0),
        mark: d(bid),
        rate: d(0.0),
        interval_hours: d(8.0),
        next_funding_time: 0,
        qty_step: d(0.1),
        tags: vec![],
        volume_24h_usdt: d(0.0),
    }
}

fn held_leg(exchange: &str, market: &str, side: &str, quantity: f64, price: f64) -> PositionLeg {
    PositionLeg {
        exchange: exchange.to_string(),
        market: market.to_string(),
        symbol: "ABCUSDT".to_string(),
        side: side.to_string(),
        quantity: d(quantity),
        entry_price: d(price),
        mark_price: d(price),
        unrealized_pnl: d(0.0),
        funding_earned: d(0.0),
        funding_rate: d(0.0),
        leverage: 5,
    }
}

fn held(long: PositionLeg, short: PositionLeg, notional: f64) -> Position {
    Position {
        id: "live-ABC".to_string(),
        token: "ABC".to_string(),
        status: "open".to_string(),
        opened_at: 0,
        notional_usdt: d(notional),
        leverage: 5,
        long,
        short,
        funding_earned: d(0.0),
        unrealized_pnl: d(0.0),
        current_pnl_usdt: d(0.0),
        current_roi: d(0.0),
        roi_basis_usdt: d(0.0),
        current_funding_per_hour: None,
        current_spread: None,
        current_apy: None,
    }
}

fn offer() -> Opportunity {
    Opportunity {
        id: "ABC-offer".to_string(),
        token: Token { symbol: "ABC".to_string(), name: "Abc".to_string(), rank: None, tags: vec![] },
        long: market_leg("Binance", "perpetual", 9.9, 10.0),
        short: market_leg("Bybit", "perpetual", 10.1, 10.2),
        funding_per_hour: d(0.0001),
        borrow_interest_per_hour: d(0.0),
        apy: d(0.8),
        apy_horizon_hours: 1,
        spread: d(0.01),
        average_spread_24h: d(0.0),
        spread_vs_average: d(0.01),
        fees: d(0.0021),
        break_even_hours: d(10.0),
        route_type: "cross_perpetual".to_string(),
        execution_supported: true,
    }
}

fn order(exchange: &str, status: &str, quantity: f64, price: f64) -> OrderExecution {
    OrderExecution {
        exchange: exchange.to_string(),
        client_order_id: "av1".to_string(),
        order_id: "1".to_string(),
        status: status.to_string(),
        executed_quantity: d(quantity),
        average_price: d(price),
    }
}

const TOLERANCE: f64 = 10.0;

fn request(notional: f64, guard: bool) -> OpenTradeRequest {
    OpenTradeRequest {
        opportunity_id: "ABC-offer".to_string(),
        notional_usdt: d(notional),
        leverage: 5,
        spread_guard: guard,
        spread_threshold: None,
    }
}

fn opening(notional: f64, guard: bool) -> OpenRun {
    OpenRun::new(offer(), request(notional, guard), d(TOLERANCE), 50).unwrap()
}

/// An opening whose checks are passed, with what was held before.
fn checked(notional: f64, guard: bool, long: Option<PositionLeg>, short: Option<PositionLeg>) -> OpenRun {
    let mut run = opening(notional, guard);
    assert!(matches!(run.next(), OpenAction::FindLegs));
    run.on_existing(Ok((long, short))).unwrap();
    assert!(matches!(run.next(), OpenAction::FindBalances));
    run.on_balances(Ok((d(1000.0), d(1000.0)))).unwrap();
    assert!(matches!(run.next(), OpenAction::SetLeverage { leverage: 5 }));
    run.on_leverage(Ok(())).unwrap();
    run
}

/// An opening whose orders are behind it.
fn sent(notional: f64, guard: bool, long: Option<PositionLeg>, short: Option<PositionLeg>) -> OpenRun {
    let mut run = checked(notional, guard, long, short);
    run.on_orders(None, None);
    run.on_phase_one(0, 0, vec![], 0, 0, vec![]);
    assert!(matches!(run.next(), OpenAction::EvenOut));
    run
}

fn long_leg(quantity: f64) -> Option<PositionLeg> {
    Some(held_leg("Binance", "perpetual", "long", quantity, 10.0))
}

fn short_leg(quantity: f64) -> Option<PositionLeg> {
    Some(held_leg("Bybit", "perpetual", "short", quantity, 10.0))
}

fn fault<T>(result: Result<T, Failure>) -> String {
    match result {
        Ok(_) => panic!("this should fail"),
        Err(failure) => failure.message(),
    }
}

#[test]
fn an_opening_has_to_be_in_range() {
    let fine = offer();
    assert!(admit_open(&request(100.0, false), d(0.01), &fine).is_ok());
    assert_eq!(
        fault(admit_open(&request(9.0, false), d(0.01), &fine)),
        "notionalUsdt must be between 10 and 1,000,000"
    );
    let mut levered = request(100.0, false);
    levered.leverage = 21;
    assert_eq!(fault(admit_open(&levered, d(0.01), &fine)), "leverage must be between 1 and 20");
    let mut watched = offer();
    watched.execution_supported = false;
    assert_eq!(
        fault(admit_open(&request(100.0, false), d(0.01), &watched)),
        "this opportunity is observation-only or currently has no borrowable liquidity"
    );
    assert_eq!(
        fault(admit_open(&request(100.0, true), d(0.02), &fine)),
        "SPREAD_WAIT: current executable spread 1.0000% is below threshold 2.0000%"
    );
    assert!(is_within(d(10.0), d(10.0).bits, d(20.0).bits) && !is_within(d(f64::NAN), d(10.0).bits, d(20.0).bits));
}

#[test]
fn a_twentieth_of_the_margin_is_kept_in_reserve() {
    let offer = offer();
    assert!(preflight_balance(&offer, &request(100.0, false), Ok((d(21.0), d(21.0)))).is_ok());
    assert_eq!(
        fault(preflight_balance(&offer, &request(100.0, false), Ok((d(20.99), d(21.0))))),
        "Binance available balance 20.99 is below required safety amount 21.00; no orders were sent"
    );
    assert_eq!(
        fault(preflight_balance(&offer, &request(100.0, false), Ok((d(21.0), d(5.0))))),
        "Bybit available balance 5.00 is below required safety amount 21.00; no orders were sent"
    );
    let mut other = offer.clone();
    other.long.exchange = "Kraken".to_string();
    assert_eq!(
        fault(preflight_balance(&other, &request(100.0, false), Ok((d(21.0), d(21.0))))),
        "unsupported exchange Kraken"
    );
}

#[test]
fn what_is_sold_short_can_be_borrowed() {
    let mut offer = offer();
    assert!(!needs_borrow(&offer));
    offer.short = market_leg("Binance", "spot", 10.0, 10.1);
    assert!(needs_borrow(&offer));
    assert!(preflight_borrow(&offer, &request(100.0, false), Ok(d(9.9))).is_ok());
    assert_eq!(
        fault(preflight_borrow(&offer, &request(100.0, false), Ok(d(9.8)))),
        "Binance margin maximum borrowable 9.8 is below required 10 ABC; no orders were sent"
    );
}

#[test]
fn nothing_is_sent_before_everything_is_known() {
    let gone = || Failure::new(Reason::BybitWalletMissing);
    let details = [
        preflight_balance(&offer(), &request(100.0, false), Err(gone())),
        preflight_borrow(&offer(), &request(100.0, false), Err(gone())),
        opening(100.0, false).on_existing(Err(gone())),
        check_leverage(Err(gone())),
    ]
    .map(|result| result.err().unwrap().detail());
    assert_eq!(
        details,
        [
            "balance preflight failed; no orders were sent: Bybit wallet missing",
            "Binance margin borrow preflight failed; no orders were sent: Bybit wallet missing",
            "failed to verify existing positions; no orders were sent: Bybit wallet missing",
            "failed to configure leverage; no orders were sent: Bybit wallet missing",
        ]
    );
    assert!(check_leverage(Ok(())).is_ok());
}

#[test]
fn an_opening_goes_no_further_than_its_checks() {
    let gone = || Failure::new(Reason::BybitWalletMissing);
    let mut borrowed = offer();
    borrowed.short = market_leg("Binance", "spot", 10.0, 10.1);
    let mut run = OpenRun::new(borrowed, request(100.0, false), d(TOLERANCE), 50).unwrap();
    assert!(run.on_existing(Err(gone())).is_err());
    assert!(matches!(run.next(), OpenAction::FindLegs));
    run.on_existing(Ok((None, None))).unwrap();
    assert!(run.on_balances(Ok((d(20.99), d(0.0)))).is_err());
    assert!(run.on_balances(Err(gone())).is_err());
    assert!(matches!(run.next(), OpenAction::FindBalances));
    run.on_balances(Ok((d(21.0), d(0.0)))).unwrap();
    let OpenAction::FindBorrowable { base } = run.next() else { panic!() };
    assert_eq!(base, "ABC");
    assert!(run.on_borrowable(Ok(d(9.8))).is_err());
    assert!(run.on_borrowable(Err(gone())).is_err());
    assert!(matches!(run.next(), OpenAction::FindBorrowable { .. }));
    run.on_borrowable(Ok(d(9.9))).unwrap();
    assert!(run.on_leverage(Err(gone())).is_err());
    assert!(matches!(run.next(), OpenAction::SetLeverage { .. }));
    run.on_leverage(Ok(())).unwrap();
    assert!(matches!(run.next(), OpenAction::Send { .. }));
}

#[test]
fn an_opening_buys_and_sells_at_once() {
    let OpenAction::Send { long, short } = checked(100.0, false, None, None).next() else { panic!() };
    assert_eq!((long.side.as_str(), f(long.quantity), long.reduce_only, long.limit_price.is_none()), ("Buy", 10.0, false, true));
    assert_eq!((short.side.as_str(), short.reduce_only), ("Sell", false));
    assert!((f(short.quantity) - 9.9).abs() < 1e-9);
    let OpenAction::Send { long, short } = checked(100.0, true, None, None).next() else { panic!() };
    assert_eq!(long.limit_price.map(f), Some(10.0));
    assert_eq!(short.limit_price.map(f), Some(10.1));
}

#[test]
fn an_opening_that_is_too_small_for_a_step_is_refused() {
    let mut coarse = offer();
    coarse.long.qty_step = d(100.0);
    assert_eq!(
        fault(OpenRun::new(coarse, request(100.0, false), d(TOLERANCE), 50)),
        "calculated order quantity is zero"
    );
}

#[test]
fn one_leg_alone_is_not_increased() {
    let mut run = opening(100.0, false);
    assert_eq!(
        fault(run.on_existing(Ok((long_leg(10.0), None)))),
        "NAKED_EXPOSURE: ABC has only one expected leg; repair it before increasing"
    );
    let mut run = checked(100.0, false, long_leg(10.0), short_leg(10.0));
    assert!(run.is_increase);
    run.on_orders(None, None);
    let OpenAction::LiftLegs { long_target, short_target } = run.next() else { panic!() };
    assert_eq!((f(long_target), f(short_target)), (200.0, 200.0));
    let mut run = checked(100.0, true, long_leg(10.0), short_leg(10.0));
    run.on_orders(None, None);
    assert!(matches!(run.next(), OpenAction::ReadLegs));
}

#[test]
fn an_opened_position_is_hedged() {
    let mut run = checked(100.0, false, None, None);
    run.on_orders(Some(order("Binance", "FILLED", 10.0, 10.0)), None);
    run.on_phase_one(0, 0, vec![], 1, 0, vec![order("Bybit", "Filled", 10.0, 10.0)]);
    let response = run.finish(long_leg(10.0), short_leg(10.0), 0, 0, vec![], 5).unwrap();
    assert_eq!(response.mode, "live");
    assert_eq!(response.message, "双腿已并发成交并完成仓位对齐");
    assert_eq!(response.position.id, "live-ABC");
    assert_eq!(f(response.position.notional_usdt), 100.0);
    let report = response.execution.unwrap();
    assert_eq!(report.outcome, "filled_and_balanced");
    assert!(report.balanced && !report.naked_exposure);
    assert_eq!((report.orders.len(), report.supplement_orders.len()), (1, 1));
    assert_eq!(report.phase_one_short_attempts, 1);
}

#[test]
fn an_opening_that_stays_uneven_is_reported() {
    let run = sent(100.0, false, None, None);
    assert_eq!(
        fault(run.finish(long_leg(10.0), None, 3, 2, vec![], 5)),
        "NAKED_EXPOSURE: phase two exhausted after 3 attempts (2 anomalies); actual position mismatch 100.000000 USDT (100.00%) exceeds both 10 USDT and 1%"
    );
    let run = sent(100.0, false, None, None);
    assert_eq!(
        fault(run.finish(long_leg(0.5), None, 3, 0, vec![], 5)),
        "position reconciliation returned an incomplete leg with 5.000000 USDT residual mismatch, within protection tolerance"
    );
    let run = sent(100.0, true, None, None);
    assert_eq!(
        fault(run.finish(None, short_leg(0.5), 3, 0, vec![], 5)),
        "SPREAD_NO_FILL: exchange position synchronization produced only 5.000000 USDT of residual mismatch"
    );
    let run = sent(100.0, true, long_leg(10.0), short_leg(10.0));
    assert_eq!(
        fault(run.finish(long_leg(10.0), short_leg(10.0), 0, 0, vec![], 5)),
        "SPREAD_NO_FILL: IOC limit orders produced no balanced fill"
    );
}

#[test]
fn slippage_counts_against_the_desk_only() {
    let fill = |price: f64| order("Bybit", "Filled", 1.0, price);
    assert!(ensure_slippage(&fill(10.04), d(10.0), true, 50).is_ok());
    assert!(ensure_slippage(&fill(9.0), d(10.0), true, 50).is_ok());
    assert!(ensure_slippage(&fill(11.0), d(10.0), false, 50).is_ok());
    assert_eq!(
        fault(ensure_slippage(&fill(10.1), d(10.0), true, 50)),
        "Bybit fill slippage 100.0bps exceeded limit 50bps; clientOrderId=av1"
    );
    assert_eq!(
        fault(ensure_slippage(&fill(9.9), d(10.0), false, 50)),
        "Bybit fill slippage 100.0bps exceeded limit 50bps; clientOrderId=av1"
    );
    assert_eq!(
        fault(ensure_slippage(&fill(0.0), d(10.0), true, 50)),
        "Bybit order returned invalid fill data; clientOrderId=av1"
    );
}

#[test]
fn a_leg_is_lifted_to_its_target() {
    let leg = market_leg("Binance", "perpetual", 9.9, 10.0);
    let mut run = AlignRun::new(leg, "Buy".to_string(), d(100.0), d(TOLERANCE), 50);
    let AlignStep::Place(plan) = run.on_state(Sight::Seen(long_leg(5.0))) else { panic!() };
    assert_eq!((plan.side.as_str(), f(plan.quantity), plan.reduce_only), ("Buy", 5.0, false));
    assert!(matches!(run.on_order(Some(order("Binance", "FILLED", 5.0, 10.0))), AlignStep::Query));
    assert!(matches!(run.on_state(Sight::Seen(long_leg(9.5))), AlignStep::FinalQuery));
    run.on_final(Sight::Seen(long_leg(9.5)));
    assert_eq!((run.attempts, run.anomalies, run.orders.len()), (1, 0, 1));
}

#[test]
fn a_leg_is_lifted_in_at_most_three_attempts() {
    let leg = market_leg("Binance", "perpetual", 9.9, 10.0);
    let mut run = AlignRun::new(leg, "Buy".to_string(), d(100.0), d(TOLERANCE), 50);
    for attempt in 0..MAX_RECONCILIATION_ATTEMPTS {
        assert_eq!(run.attempts, attempt);
        assert!(matches!(run.on_state(Sight::Seen(None)), AlignStep::Place(_)));
        run.on_order(None);
    }
    assert_eq!((run.attempts, run.anomalies), (3, 3));
    run.on_final(Sight::Unknown);
    assert_eq!(run.anomalies, 4);
    assert!(run.state.is_none());
}

#[test]
fn the_larger_leg_is_reduced_and_nothing_else() {
    let legs = || (market_leg("Binance", "perpetual", 9.9, 10.0), market_leg("Bybit", "perpetual", 10.0, 10.1));
    let (long, short) = legs();
    let mut run = EvenRun::new(long, short, None, None);
    let EvenStep::Place(plan) = run.on_states(Sight::Seen(long_leg(10.0)), Sight::Seen(short_leg(5.0))) else { panic!() };
    assert_eq!((plan.exchange.as_str(), plan.side.as_str(), f(plan.quantity), plan.reduce_only), ("Binance", "Sell", 5.0, true));
    assert!(matches!(run.on_order(Some(order("Binance", "FILLED", 5.0, 10.0))), EvenStep::Query { after_millis: 0 }));
    assert!(matches!(run.on_states(Sight::Seen(long_leg(5.0)), Sight::Seen(short_leg(5.0))), EvenStep::FinalQuery));
    run.on_final(Sight::Seen(long_leg(5.0)), Sight::Seen(short_leg(5.0)));
    assert_eq!((run.attempts, run.anomalies, run.orders.len()), (1, 0, 1));
    let (long, short) = legs();
    let mut run = EvenRun::new(long, short, None, None);
    let EvenStep::Place(plan) = run.on_states(Sight::Seen(None), Sight::Seen(short_leg(5.0))) else { panic!() };
    assert_eq!((plan.exchange.as_str(), plan.side.as_str(), f(plan.quantity), plan.reduce_only), ("Bybit", "Buy", 5.0, true));
}

#[test]
fn a_pair_that_does_not_show_is_looked_for_three_times() {
    let mut run = EvenRun::new(
        market_leg("Binance", "perpetual", 9.9, 10.0),
        market_leg("Bybit", "perpetual", 10.0, 10.1),
        None,
        None,
    );
    assert!(matches!(run.on_states(Sight::Seen(None), Sight::Seen(None)), EvenStep::Query { after_millis: 250 }));
    assert!(matches!(run.on_states(Sight::Seen(None), Sight::Seen(None)), EvenStep::Query { after_millis: 250 }));
    assert!(matches!(run.on_states(Sight::Seen(None), Sight::Seen(None)), EvenStep::FinalQuery));
    let mut run = EvenRun::new(
        market_leg("Binance", "perpetual", 9.9, 10.0),
        market_leg("Bybit", "perpetual", 10.0, 10.1),
        long_leg(1.0),
        None,
    );
    assert!(matches!(run.on_states(Sight::Unknown, Sight::Seen(None)), EvenStep::Query { after_millis: 0 }));
    assert_eq!((run.attempts, run.anomalies), (1, 1));
    assert!(run.long.is_some());
}

fn pair(quantity: f64) -> Position {
    held(long_leg(quantity).unwrap(), short_leg(quantity).unwrap(), quantity * 10.0)
}

#[test]
fn a_reduction_keeps_the_legs_even() {
    assert!(check_reduction(&pair(10.0), d(50.0)).is_ok());
    assert_eq!(
        fault(check_reduction(&pair(10.0), d(100.0))),
        "reduction is too close to the full position; use close for a full exit"
    );
    let mut run = ReduceRun::new(pair(10.0), d(50.0), d(0.1), d(0.1), d(TOLERANCE), 50).unwrap();
    assert_eq!(
        fault(ReduceRun::new(pair(10.0), d(100.0), d(0.1), d(0.1), d(TOLERANCE), 50)),
        "reduction is too close to the full position; use close for a full exit"
    );
    let ReduceAction::Send { long, short } = run.next() else { panic!() };
    assert_eq!((long.side.as_str(), f(long.quantity), long.reduce_only), ("Sell", 5.0, true));
    assert_eq!((short.side.as_str(), f(short.quantity), short.reduce_only), ("Buy", 5.0, true));
    run.on_orders(Some(order("Binance", "FILLED", 5.0, 10.0)), Some(order("Bybit", "Filled", 5.0, 10.0)));
    assert!(matches!(run.next(), ReduceAction::EvenOut));
    let response = run.finish(long_leg(5.0), short_leg(5.0), 0, 0, vec![]).unwrap();
    assert_eq!(f(response.position.notional_usdt), 50.0);
    assert_eq!(response.message, "双腿已并发减仓并完成仓位对齐");
    assert_eq!(response.execution.unwrap().outcome, "reduced_and_balanced");
}

#[test]
fn what_can_go_wrong_with_a_reduction_is_told() {
    let start = || {
        let mut run = ReduceRun::new(pair(10.0), d(50.0), d(0.1), d(0.1), d(TOLERANCE), 50).unwrap();
        run.on_orders(None, None);
        run
    };
    assert_eq!(
        fault(ReduceRun::new(pair(10.0), d(50.0), d(100.0), d(0.1), d(TOLERANCE), 50)),
        "calculated reduction quantity is zero"
    );
    assert_eq!(
        fault(start().finish(long_leg(10.0), short_leg(5.0), 3, 0, vec![])),
        "NAKED_EXPOSURE: reduction reconciliation failed; actual mismatch is 50.00 USDT (50.00%)"
    );
    assert_eq!(
        fault(start().finish(long_leg(8.0), short_leg(8.0), 0, 0, vec![])),
        "reduction target was not reached; target 50.00 USDT, actual LONG 20.00 / SHORT 20.00 USDT"
    );
}

#[test]
fn the_metadata_of_both_legs_is_needed() {
    let legs = vec![market_leg("Binance", "perpetual", 1.0, 1.0), market_leg("Bybit", "perpetual", 1.0, 1.0)];
    let (long, short) = leg_metadata(&legs, &pair(10.0)).unwrap();
    assert_eq!((long.exchange.as_str(), short.exchange.as_str()), ("Binance", "Bybit"));
    assert_eq!(fault(leg_metadata(&vec![legs[1].clone()], &pair(10.0))), "long contract metadata unavailable");
    assert_eq!(fault(leg_metadata(&vec![legs[0].clone()], &pair(10.0))), "short contract metadata unavailable");
}

#[test]
fn a_close_takes_one_leg_after_the_other() {
    let mut run = CloseRun::new(pair(10.0), d(TOLERANCE), 50);
    let CloseAction::CloseLong { order: plan } = run.next() else { panic!() };
    assert_eq!((plan.side.as_str(), f(plan.quantity), plan.reduce_only), ("Sell", 10.0, true));
    run.on_long(Ok(order("Binance", "FILLED", 10.0, 10.0))).unwrap();
    let CloseAction::CloseShort { order: plan } = run.next() else { panic!() };
    assert_eq!((plan.exchange.as_str(), plan.side.as_str(), plan.reduce_only), ("Bybit", "Buy", true));
    run.on_short(Ok(order("Bybit", "Filled", 10.0, 10.0))).unwrap();
    assert!(matches!(run.next(), CloseAction::Finish));
    let response = run.finish();
    assert_eq!(response.position.status, "closed");
    let report = response.execution.unwrap();
    assert_eq!((report.outcome.as_str(), report.orders.len()), ("closed", 2));
}

#[test]
fn a_half_close_is_an_exposure() {
    let mut run = CloseRun::new(pair(10.0), d(TOLERANCE), 50);
    let failure = run.on_long(Err(Failure::new(Reason::ZeroQuantity))).err().unwrap();
    assert_eq!(failure.detail(), "calculated order quantity is zero");
    let mut run = CloseRun::new(pair(10.0), d(TOLERANCE), 50);
    run.on_long(Ok(order("Binance", "FILLED", 10.0, 10.0))).unwrap();
    let failure = run.on_short(Err(Failure::new(Reason::ZeroQuantity))).err().unwrap();
    assert_eq!(
        failure.detail(),
        "NAKED_EXPOSURE: long leg close confirmed, short leg close failed; manual intervention required: calculated order quantity is zero"
    );
    assert_eq!(http_status(&failure.message()), 502);
}

#[test]
fn a_debt_is_paid_back_in_at_most_three_purchases() {
    let metadata = market_leg("Binance", "spot", 10.0, 10.1);
    let position = held(long_leg(10.0).unwrap(), held_leg("Binance", "spot", "short", 10.0, 10.0), 100.0);
    let mut run = CloseRun::new(position, d(TOLERANCE), 50);
    run.on_long(Ok(order("Binance", "FILLED", 10.0, 10.0))).unwrap();
    run.on_short(Ok(order("Binance Spot Margin", "FILLED", 10.0, 10.0))).unwrap();
    assert!(matches!(run.next(), CloseAction::FindMarkets));
    assert_eq!(fault(run.on_markets(Ok(vec![]))), "spot margin metadata unavailable after close");
    run.on_markets(Ok(vec![market_leg("Bybit", "spot", 10.0, 10.1), metadata])).unwrap();
    for _ in 0..3 {
        let CloseAction::FindDebt { market } = run.next() else { panic!() };
        assert_eq!(market.exchange, "Binance");
        run.on_debt(Ok(Some(held_leg("Binance", "spot", "short", 0.04, 10.0)))).unwrap();
        let CloseAction::Repay { order: plan } = run.next() else { panic!() };
        assert_eq!((plan.side.as_str(), f(plan.quantity), plan.reduce_only), ("Buy", 0.1, true));
        let failure = run.on_repayment(Err(Failure::new(Reason::MarginRoute))).err().unwrap();
        assert!(failure.detail().starts_with("Binance margin residual debt repayment failed: "));
        run.on_repayment(Ok(order("Binance Spot Margin", "FILLED", 0.1, 10.0))).unwrap();
    }
    assert!(matches!(run.next(), CloseAction::FindLastDebt { .. }));
    let owed = Some(held_leg("Binance", "spot", "short", 0.04, 10.0));
    assert_eq!(fault(run.on_last_debt(Ok(owed))), "Binance margin debt remains after three repayment attempts");
    assert!(matches!(run.next(), CloseAction::FindLastDebt { .. }));
    run.on_last_debt(Ok(None)).unwrap();
    assert!(run.debt_gone && matches!(run.next(), CloseAction::Finish));
    assert_eq!(run.finish().execution.unwrap().supplement_orders.len(), 3);
}
