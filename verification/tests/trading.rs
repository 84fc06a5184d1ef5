use arbiview::json::{Json, Numeral, Text};
use arbiview::models::{Leg, Opportunity, Position, PositionLeg, Token};
use arbiview::num::Double;
use arbiview::trading::amounts::{
    auto_close_reduction, close_spread_guard_allows, executable_top_notional, floor_step, format_qty,
    funding_refresh_bucket, hedge_notional_imbalance_ratio, held_route_apy_percent, is_ioc_no_fill,
    no_loss_next_batch_allowed, notional_mismatch_exceeds_values, paired_positions_are_balanced,
    position_funding_key, protection_order_quantity, reduced_notional_at_reference, spread_guard_allows,
    update_position_roi,
};
use arbiview::trading::fills::{
    match_close_fills, match_guard_fills_with_edge, CloseUnmatchedFill, GuardUnmatchedFill,
};
use arbiview::trading::holdings::margin_short_entry_price;
use arbiview::trading::income::{is_current, IncomeSummary};
use arbiview::trading::orders::{binance_fill, binance_spot_fill};
use arbiview::trading::recovery::SpreadRecovery;

fn d(x: f64) -> Double {
    Double::from_bits(x.to_bits())
}

fn f(x: Double) -> f64 {
    f64::from_bits(x.bits)
}

fn read(text: &str) -> Json {
    to_json(&serde_json::from_str(text).unwrap())
}

fn to_json(value: &serde_json::Value) -> Json {
    match value {
        serde_json::Value::Null => Json::Null,
        serde_json::Value::Bool(b) => Json::Bool(*b),
        serde_json::Value::Number(n) => Json::Number(Numeral {
            value: d(n.as_f64().unwrap()),
            integer: n.as_i64(),
            text: n.to_string(),
        }),
        serde_json::Value::String(s) => Json::Text(Text {
            text: s.clone(),
            number: s.parse::<f64>().ok().map(d),
            integer: s.parse::<i64>().ok(),
        }),
        serde_json::Value::Array(items) => Json::List(items.iter().map(to_json).collect()),
        serde_json::Value::Object(members) => {
            Json::Object(members.iter().map(|(k, v)| (k.clone(), to_json(v))).collect())
        }
    }
}

#[test]
fn quantity_rounding_never_exceeds_requested_amount() {
    let quantity = f(floor_step(d(12.3456), d(0.01)));
    assert!(quantity <= 12.3456);
    assert!((quantity - 12.34).abs() < 1e-9);
}

#[test]
fn a_cut_quantity_is_at_most_one_number_above_its_value() {
    for (value, step) in [(1.0, 0.1), (0.3, 0.1), (12.3456, 0.01), (7.0, 2.5), (0.004, 0.01), (250.0, 0.001)] {
        assert!(f(floor_step(d(value), d(step))) <= value);
    }
    let value = 3.98056f64;
    let step = 1e-5;
    for bits in value.to_bits() - 40..value.to_bits() + 40 {
        let near = f64::from_bits(bits);
        let cut = f(floor_step(d(near), d(step)));
        assert_eq!(cut, (near / step).floor() * step);
        assert!(cut.to_bits() <= bits + 1);
        assert!(cut <= near || (near / step).fract() == 0.0);
    }
    assert_eq!(f(floor_step(d(3.98056), d(step))), 3.9805600000000005);
}

#[test]
fn the_imbalance_of_two_legs_is_a_share_of_the_larger() {
    let mut long = test_position().long;
    let mut short = test_position().short;
    long.mark_price = d(1.0);
    short.mark_price = d(1.0);
    for (a, b) in [(0.0, 0.0), (1.0, 0.0), (0.1, 0.3), (3.7, 3.7), (1e300, 1e-300)] {
        long.quantity = d(a);
        short.quantity = d(b);
        let share = f(hedge_notional_imbalance_ratio(&long, &short));
        assert!(0.0 <= share && share <= 1.0);
        assert!(a != b || share == 0.0);
    }
}

#[test]
fn binance_fill_uses_cumulative_quote_when_average_price_is_zero() {
    let response = read(
        r#"{
            "status": "FILLED",
            "executedQty": "34.57",
            "cumQuote": "99.80359000",
            "avgPrice": "0"
        }"#,
    );
    let (status, quantity, average_price) = binance_fill(&response);
    assert_eq!(status, "FILLED");
    assert!((f(quantity) - 34.57).abs() < 1e-9);
    assert!((f(average_price) - 2.887).abs() < 1e-9);
}

#[test]
fn binance_spot_fill_uses_cummulative_quote_quantity() {
    let response = read(
        r#"{
            "status": "FILLED",
            "executedQty": "10",
            "cummulativeQuoteQty": "25"
        }"#,
    );
    let (status, quantity, average_price) = binance_spot_fill(&response);
    assert_eq!(status, "FILLED");
    assert_eq!(f(quantity), 10.0);
    assert_eq!(f(average_price), 2.5);
}

#[test]
fn margin_short_entry_tracks_remaining_sell_inventory() {
    let trades = read(
        r#"[
            {"time": 1, "isBuyer": false, "qty": "10", "quoteQty": "20"},
            {"time": 2, "isBuyer": true, "qty": "4", "quoteQty": "9"},
            {"time": 3, "isBuyer": false, "qty": "2", "quoteQty": "6"}
        ]"#,
    );
    let entry = f(margin_short_entry_price(&trades, d(8.0)).unwrap());
    assert!((entry - 2.25).abs() < 1e-9);
}

#[test]
fn auto_close_batches_never_exceed_configured_order_size() {
    let reduction = |remaining: f64, order: f64, tolerance: f64| {
        auto_close_reduction(d(remaining), d(order), d(tolerance)).map(f)
    };
    assert_eq!(reduction(1_005.0, 100.0, 10.0), Some(100.0));
    // Preserve the normal 10 USDT tolerance before the final full-close order.
    assert_eq!(reduction(105.0, 100.0, 10.0), Some(95.0));
    assert_eq!(reduction(10.0, 100.0, 10.0), None);
}

#[test]
fn hedge_protection_caps_orders_and_closes_the_final_remainder() {
    let mut leg = test_position().long;
    leg.quantity = d(100.0);
    leg.mark_price = d(10.0);
    let quantity = |leg: &PositionLeg, excess: f64, entire: bool| {
        f(protection_order_quantity(leg, d(excess), d(0.01), entire))
    };
    assert_eq!(quantity(&leg, 1_000.0, false), 10.0);
    assert_eq!(quantity(&leg, 50.0, false), 5.0);

    leg.quantity = d(8.0);
    assert_eq!(quantity(&leg, 8.0, true), 8.0);
}

#[test]
fn hedge_protection_uses_relative_notional_difference_without_dividing_by_zero() {
    let mut long = test_position().long;
    let mut short = test_position().short;
    long.quantity = d(50.0);
    short.quantity = d(50.0);
    long.mark_price = d(4.50);
    short.mark_price = d(4.00);
    assert!((f(hedge_notional_imbalance_ratio(&long, &short)) - (25.0 / 225.0)).abs() < 1e-9);

    long.quantity = d(0.0);
    short.quantity = d(0.0);
    assert_eq!(f(hedge_notional_imbalance_ratio(&long, &short)), 0.0);
}

#[test]
fn paired_positions_accept_small_relative_mismatch_above_ten_usdt() {
    let mut long = test_position().long;
    let mut short = test_position().short;
    long.quantity = d(500.0);
    short.quantity = d(498.4);
    long.mark_price = d(10.0);
    short.mark_price = d(10.0);
    assert!(paired_positions_are_balanced(&Some(long.clone()), &Some(short)));
    assert!(!paired_positions_are_balanced(&Some(long), &None));
}

#[test]
fn reduction_progress_uses_quantity_change_at_a_stable_reference_price() {
    let reduced = |before: f64, after: f64, price: f64| {
        f(reduced_notional_at_reference(d(before), d(after), d(price)))
    };
    assert!((reduced(100.0, 90.0, 10.0) - 100.0).abs() < 1e-9);
    assert_eq!(reduced(100.0, 100.5, 10.0), 0.0);
}

#[test]
fn position_roi_uses_both_legs_margin_and_current_lifecycle_profit() {
    let mut position = test_position();
    position.long.leverage = 10;
    position.short.leverage = 5;
    position.unrealized_pnl = d(4.0);
    position.funding_earned = d(2.0);
    update_position_roi(&mut position);
    assert!((f(position.roi_basis_usdt) - 30.0).abs() < 1e-9);
    assert!((f(position.current_pnl_usdt) - 6.0).abs() < 1e-9);
    assert!((f(position.current_roi) - 0.2).abs() < 1e-9);
}

#[test]
fn auto_close_never_treats_missing_market_data_as_zero_apy() {
    let position = test_position();
    assert!(held_route_apy_percent(&position, &vec![]).is_none());

    let reverse = Opportunity {
        id: "DEXE-Bybit-Binance".into(),
        token: Token {
            symbol: "DEXE".into(),
            name: "DeXe".into(),
            rank: Some(100),
            tags: vec!["cmc200".into()],
        },
        long: test_market_leg("Bybit"),
        short: test_market_leg("Binance"),
        funding_per_hour: d(0.001),
        borrow_interest_per_hour: d(0.0),
        apy: d(4.0),
        apy_horizon_hours: 1,
        spread: d(0.0),
        average_spread_24h: d(0.0),
        spread_vs_average: d(0.0),
        fees: d(0.0),
        break_even_hours: d(0.0),
        route_type: "cross_perpetual".into(),
        execution_supported: true,
    };
    assert_eq!(held_route_apy_percent(&position, &vec![reverse]).map(f), Some(-400.0));
}

fn test_position_leg(exchange: &str, side: &str) -> PositionLeg {
    PositionLeg {
        exchange: exchange.into(),
        market: "perpetual".into(),
        symbol: "DEXEUSDT".into(),
        side: side.into(),
        quantity: d(10.0),
        entry_price: d(10.0),
        mark_price: d(10.0),
        unrealized_pnl: d(0.0),
        funding_earned: d(0.0),
        funding_rate: d(0.0),
        leverage: 1,
    }
}

fn test_position() -> Position {
    Position {
        id: "live-DEXE".into(),
        token: "DEXE".into(),
        status: "open".into(),
        opened_at: 0,
        notional_usdt: d(100.0),
        leverage: 1,
        long: test_position_leg("Binance", "long"),
        short: test_position_leg("Bybit", "short"),
        funding_earned: d(0.0),
        unrealized_pnl: d(0.0),
        current_pnl_usdt: d(0.0),
        current_roi: d(0.0),
        roi_basis_usdt: d(200.0),
        current_funding_per_hour: None,
        current_spread: None,
        current_apy: None,
    }
}

fn test_market_leg(exchange: &str) -> Leg {
    Leg {
        exchange: exchange.into(),
        market: "perpetual".into(),
        base: "DEXE".into(),
        symbol: "DEXEUSDT".into(),
        bid: d(10.0),
        ask: d(10.0),
        bid_quantity: d(100.0),
        ask_quantity: d(100.0),
        mark: d(10.0),
        rate: d(0.0),
        interval_hours: d(8.0),
        next_funding_time: 0,
        qty_step: d(0.01),
        tags: vec![],
        volume_24h_usdt: d(1_000_000.0),
    }
}

#[test]
fn realized_pnl_is_funding_less_trading_fees() {
    let summary = IncomeSummary {
        funding_income: d(12.5),
        trading_fees: d(3.25),
        ..IncomeSummary::new()
    };
    assert!((f(summary.realized_pnl()) - 9.25).abs() < 1e-9);
}

#[test]
fn income_summary_can_be_scoped_to_managed_symbols() {
    let summary = IncomeSummary {
        funding_by_symbol: vec![("DEXEUSDT".into(), d(8.0)), ("XMRUSDT".into(), d(-2.0))],
        trading_fees_by_symbol: vec![("DEXEUSDT".into(), d(0.7)), ("XMRUSDT".into(), d(4.0))],
        funding_income: d(6.0),
        trading_fees: d(4.7),
        ..IncomeSummary::new()
    };
    let filtered = summary.for_symbols(&vec!["DEXEUSDT".into()]);
    assert!((f(filtered.funding_income) - 8.0).abs() < 1e-9);
    assert!((f(filtered.trading_fees) - 0.7).abs() < 1e-9);
    assert!((f(filtered.realized_pnl()) - 7.3).abs() < 1e-9);
}

#[test]
fn funding_cache_rolls_over_two_minutes_after_the_hour() {
    let hour = 60 * 60 * 1_000;
    assert_eq!(
        funding_refresh_bucket(hour + 119_999),
        funding_refresh_bucket(hour - 1)
    );
    assert_eq!(
        funding_refresh_bucket(hour + 120_000),
        funding_refresh_bucket(hour - 1) + 1
    );
}

#[test]
fn kept_funding_counts_until_the_next_roll() {
    let hour = 60 * 60 * 1_000;
    let bucket = funding_refresh_bucket(hour - 1);
    assert!(is_current(Some(bucket), hour + 119_999));
    assert!(!is_current(Some(bucket), hour + 120_000));
    assert!(!is_current(None, hour));
}

#[test]
fn realized_pnl_includes_partial_close_pnl() {
    let summary = IncomeSummary {
        closed_position_pnl: d(4.5),
        funding_income: d(2.0),
        trading_fees: d(0.75),
        ..IncomeSummary::new()
    };
    assert!((f(summary.realized_pnl()) - 5.75).abs() < 1e-9);
}

#[test]
fn spread_guard_always_prefers_the_numerically_higher_spread() {
    let allows = |current: f64, threshold: f64| spread_guard_allows(d(current), d(threshold));
    assert!(allows(0.015, 0.01));
    assert!(!allows(0.005, 0.01));
    assert!(allows(-0.015, -0.02));
    assert!(!allows(-0.025, -0.02));
    assert!(allows(-0.02, -0.02));
}

#[test]
fn close_spread_guard_prefers_the_numerically_lower_spread() {
    let allows = |current: f64, maximum: f64| close_spread_guard_allows(d(current), d(maximum));
    assert!(allows(-0.02, -0.015));
    assert!(allows(-0.015, -0.015));
    assert!(!allows(-0.01, -0.015));
}

#[test]
fn spread_guard_uses_the_smaller_top_of_book_capacity() {
    let mut opportunity = Opportunity {
        id: "DEXE".into(),
        token: Token {
            symbol: "DEXE".into(),
            name: "DEXE".into(),
            rank: None,
            tags: vec![],
        },
        long: test_market_leg("Binance"),
        short: test_market_leg("Bybit"),
        funding_per_hour: d(0.0),
        borrow_interest_per_hour: d(0.0),
        apy: d(0.0),
        apy_horizon_hours: 1,
        spread: d(0.0),
        average_spread_24h: d(0.0),
        spread_vs_average: d(0.0),
        fees: d(0.0),
        break_even_hours: d(0.0),
        route_type: "perpetual_perpetual".into(),
        execution_supported: true,
    };
    opportunity.long.ask = d(10.0);
    opportunity.long.ask_quantity = d(30.0);
    opportunity.short.bid = d(12.0);
    opportunity.short.bid_quantity = d(20.0);
    assert!((f(executable_top_notional(&opportunity)) - 240.0).abs() < 1e-9);
}

#[test]
fn reconciliation_requires_both_absolute_and_relative_mismatch_thresholds() {
    let exceeds = |long: f64, short: f64| notional_mismatch_exceeds_values(d(long), d(short), d(0.01));
    assert!(!exceeds(0.004, 0.0));
    assert!(!exceeds(1_000.0, 995.0));
    assert!(!exceeds(2_000.0, 1_985.0));
    assert!(exceeds(1_000.0, 980.0));
    assert!(exceeds(20.0, 0.0));
}

#[test]
fn market_supplement_shortfall_is_amortized_over_ten_open_batches() {
    let mut long = vec![GuardUnmatchedFill {
        notional_usdt: d(20.0),
        price: d(100.0),
    }];
    let mut short = vec![GuardUnmatchedFill {
        notional_usdt: d(20.0),
        price: d(100.5),
    }];
    let (matched, edge_value) = match_guard_fills_with_edge(&mut long, &mut short);
    assert!((f(matched) - 20.0).abs() < 1e-9);
    assert!((f(edge_value) - 0.1).abs() < 1e-9);
    let mut recovery = SpreadRecovery::new();
    recovery.record_open_cumulative(d(0.01), matched, edge_value);
    assert_eq!(recovery.batches_remaining, 10);
    assert!((f(recovery.debt_usdt) - 0.1).abs() < 1e-9);
    assert!((f(recovery.open_threshold(d(0.01), d(20.0), 10)) - 0.0105).abs() < 1e-9);
    assert!(long.is_empty());
    assert!(short.is_empty());
}

#[test]
fn successful_open_batches_pay_down_the_scheduled_debt() {
    let mut recovery = SpreadRecovery::new();
    recovery.record_open_cumulative(d(0.01), d(500.0), d(4.0));
    assert!((f(recovery.debt_usdt) - 1.0).abs() < 1e-9);
    let threshold = f(recovery.open_threshold(d(0.01), d(50.0), 10));
    assert!((threshold - 0.012).abs() < 1e-9);
    recovery.record_open_cumulative(d(0.01), d(550.0), d(4.0 + 50.0 * threshold));
    assert!((f(recovery.debt_usdt) - 0.9).abs() < 1e-9);
    assert_eq!(recovery.batches_remaining, 9);
    assert!((f(recovery.open_threshold(d(0.01), d(50.0), 9)) - 0.012).abs() < 1e-9);
}

#[test]
fn close_spread_debt_is_amortized_toward_a_lower_maximum() {
    let mut recovery = SpreadRecovery::new();
    recovery.record_close_cumulative(d(0.01), d(50.0), d(0.75));
    assert_eq!(recovery.batches_remaining, 10);
    assert!((f(recovery.debt_usdt) - 0.25).abs() < 1e-9);
    assert!((f(recovery.close_threshold(d(0.01), d(50.0), 10)) - 0.0095).abs() < 1e-9);
}

#[test]
fn spread_recovery_uses_the_actual_remaining_batches_near_task_end() {
    let recovery = SpreadRecovery {
        debt_usdt: d(1.0),
        batches_remaining: 10,
    };
    assert!((f(recovery.open_threshold(d(0.01), d(50.0), 2)) - 0.02).abs() < 1e-9);
}

#[test]
fn cumulative_open_surplus_offsets_a_later_market_supplement_loss() {
    let mut recovery = SpreadRecovery::new();
    recovery.record_open_cumulative(d(0.013), d(950.0), d(950.0 * 0.0134));
    assert_eq!(f(recovery.debt_usdt), 0.0);

    recovery.record_open_cumulative(d(0.013), d(1_000.0), d(1_000.0 * 0.01338));
    assert_eq!(f(recovery.debt_usdt), 0.0);
    assert!((f(recovery.open_threshold(d(0.013), d(50.0), 1)) - 0.013).abs() < 1e-9);
}

fn close_fill(notional: f64, pnl_ratio: f64, price: f64) -> Vec<CloseUnmatchedFill> {
    vec![CloseUnmatchedFill {
        notional_usdt: d(notional),
        pnl_ratio: d(pnl_ratio),
        price: d(price),
    }]
}

#[test]
fn no_loss_close_only_matches_batches_with_non_negative_position_pnl() {
    let mut long = close_fill(50.0, 0.02, 100.0);
    let mut short = close_fill(50.0, -0.015, 101.0);
    let (matched, pnl, spread_value) = match_close_fills(&mut long, &mut short);
    assert!((f(matched) - 50.0).abs() < 1e-9);
    assert!((f(pnl) - 0.25).abs() < 1e-9);
    assert!((f(spread_value) - 0.5).abs() < 1e-9);

    let mut long = close_fill(50.0, 0.01, 100.0);
    let mut short = close_fill(50.0, -0.02, 102.0);
    let (_, pnl, _) = match_close_fills(&mut long, &mut short);
    assert!(f(pnl) < 0.0);
    assert!(!no_loss_next_batch_allowed(d(-0.40), d(0.30)));
    assert!(no_loss_next_batch_allowed(d(-0.40), d(0.40)));
    assert!(no_loss_next_batch_allowed(d(0.20), d(-0.10)));
}

#[test]
fn names_and_texts_of_amounts() {
    assert_eq!(position_funding_key("Binance", "BTCUSDT", "long"), "Binance:BTCUSDT:long");
    assert_eq!(format_qty(d(0.010)), "0.01");
    assert_eq!(format_qty(d(100.0)), "100");
    assert!(is_ioc_no_fill("Binance order ended with status=EXPIRED"));
    assert!(!is_ioc_no_fill("Binance order ended with status=FILLED"));
}
