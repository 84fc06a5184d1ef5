use arbiview::advisor::{
    evaluate, evaluate_position, settles_at, AdvisorService, ENTRY_WINDOW_MILLIS,
};
use arbiview::models::{Leg, Opportunity, Position, PositionLeg, Token};
use arbiview::num::Double;

const HOUR_MILLIS: i64 = 60 * 60 * 1_000;

fn d(x: f64) -> Double {
    Double::from_bits(x.to_bits())
}

fn f(x: Double) -> f64 {
    f64::from_bits(x.bits)
}

fn opportunity(symbol: &str, apy: f64, break_even: f64, settlement: i64) -> Opportunity {
    let leg = |exchange: &str| Leg {
        exchange: exchange.into(),
        market: "perpetual".into(),
        base: symbol.into(),
        symbol: format!("{symbol}USDT"),
        bid: d(10.0),
        ask: d(10.0),
        bid_quantity: d(0.0),
        ask_quantity: d(0.0),
        mark: d(10.0),
        rate: d(0.001),
        interval_hours: d(1.0),
        next_funding_time: settlement,
        qty_step: d(0.1),
        tags: vec![],
        volume_24h_usdt: d(1_000_000.0),
    };
    Opportunity {
        id: symbol.into(),
        token: Token {
            symbol: symbol.into(),
            name: symbol.into(),
            rank: None,
            tags: vec![],
        },
        long: leg("Binance"),
        short: leg("Bybit"),
        funding_per_hour: d(apy / (365.0 * 24.0)),
        borrow_interest_per_hour: d(0.0),
        apy: d(apy),
        apy_horizon_hours: 1,
        spread: d(0.001),
        average_spread_24h: d(0.0),
        spread_vs_average: d(0.001),
        fees: d(0.002),
        break_even_hours: d(break_even),
        route_type: "cross_perpetual".into(),
        execution_supported: true,
    }
}

fn position() -> Position {
    let leg = |exchange: &str, side: &str| PositionLeg {
        exchange: exchange.into(),
        market: "perpetual".into(),
        symbol: "AAAUSDT".into(),
        side: side.into(),
        quantity: d(100.0),
        entry_price: d(10.0),
        mark_price: d(10.0),
        unrealized_pnl: d(0.0),
        funding_earned: d(0.0),
        funding_rate: d(0.0),
        leverage: 1,
    };
    Position {
        id: "position".into(),
        token: "AAA".into(),
        status: "open".into(),
        opened_at: 0,
        notional_usdt: d(1_000.0),
        leverage: 1,
        long: leg("Binance", "long"),
        short: leg("Bybit", "short"),
        funding_earned: d(30.0),
        unrealized_pnl: d(0.0),
        current_pnl_usdt: d(0.0),
        current_roi: d(0.0),
        roi_basis_usdt: d(0.0),
        current_funding_per_hour: None,
        current_spread: None,
        current_apy: None,
    }
}

#[test]
fn only_recommends_entry_during_last_five_minutes() {
    let settlement = HOUR_MILLIS;
    let opportunities = vec![opportunity("AAA", 3.0, 2.0, settlement)];
    assert_eq!(
        evaluate(settlement - ENTRY_WINDOW_MILLIS - 1, &opportunities, &vec![]).action,
        "hold"
    );
    assert_eq!(
        evaluate(settlement - ENTRY_WINDOW_MILLIS, &opportunities, &vec![]).action,
        "enter"
    );
}

#[test]
fn selects_fastest_break_even_from_apy_top_ten() {
    let settlement = HOUR_MILLIS;
    let mut opportunities = (0..11)
        .map(|index| {
            opportunity(
                &format!("T{index}"),
                20.0 - index as f64,
                20.0 - index as f64,
                settlement,
            )
        })
        .collect::<Vec<_>>();
    opportunities[4].break_even_hours = d(0.5);
    opportunities[10].break_even_hours = d(0.1);
    let result = evaluate(settlement - 1, &opportunities, &vec![]);
    assert_eq!(result.entry.unwrap().token, "T4");
}

#[test]
fn position_requires_net_profit_above_one_percent() {
    let mut position = position();
    assert!(evaluate_position(&position).take_profit_allowed);
    position.funding_earned = d(20.0);
    assert!(!evaluate_position(&position).take_profit_allowed);
}

#[test]
fn the_fees_of_a_position_are_those_of_both_legs_both_ways() {
    let advice = evaluate_position(&position());
    assert_eq!(f(advice.combined_notional_usdt), 2_000.0);
    assert_eq!(f(advice.estimated_fees_usdt), 1_000.0 * 0.0005 + 1_000.0 * 0.00055 + (1_000.0 * 0.0005 + 1_000.0 * 0.00055));
    assert_eq!(f(advice.take_profit_threshold_usdt), 20.0);
    assert_eq!(advice.action, "take_profit_allowed");
}

#[test]
fn equal_break_even_times_are_decided_by_yield() {
    let settlement = HOUR_MILLIS;
    let opportunities = vec![
        opportunity("LOW", 1.0, 2.0, settlement),
        opportunity("HIGH", 4.0, 2.0, settlement),
    ];
    let entry = evaluate(settlement - 1, &opportunities, &vec![]).entry.unwrap();
    assert_eq!(entry.token, "HIGH");
    assert_eq!(entry.apy_rank, 1);
    assert_eq!(f(entry.apy_percent), 400.0);
    assert_eq!(f(entry.spread_percent), 0.001 * 100.0);
}

#[test]
fn a_route_has_to_settle_at_the_next_hour() {
    assert!(settles_at(HOUR_MILLIS + 60_000, HOUR_MILLIS));
    assert!(!settles_at(HOUR_MILLIS + 60_001, HOUR_MILLIS));
    assert!(!settles_at(i64::MIN, i64::MAX));
    let opportunities = vec![opportunity("AAA", 3.0, 2.0, 2 * HOUR_MILLIS)];
    let advice = evaluate(HOUR_MILLIS - 1, &opportunities, &vec![]);
    assert_eq!(advice.action, "hold");
    assert_eq!(advice.next_settlement_at, HOUR_MILLIS);
    assert!(advice.entry_window_open);
}

#[test]
fn what_asks_for_action_is_kept() {
    let mut advisor = AdvisorService::new(None);
    let held = vec![position()];
    assert_eq!(advisor.recommendation(5, &vec![], &vec![]).action, "hold");
    assert!(advisor.latest_actionable().is_none());
    let advice = advisor.recommendation(5, &vec![], &held);
    assert_eq!(advice.reason, "1 个持仓的净收益已超过双腿名义价值之和的 1%");
    assert_eq!(advisor.latest_actionable().unwrap().action, "take_profit_allowed");
    advisor.recommendation(5, &vec![], &vec![]);
    assert_eq!(advisor.latest_actionable().unwrap().positions.len(), 1);
}
