use arbiview::json::{Json, Numeral, Text};
use arbiview::market::decode::{live_quote_from_binance, live_quote_from_bybit};
use arbiview::market::projection::{
    cross_funding_projection, projected_rate_at, time_weighted_average, weight_exponents,
};
use arbiview::market::routes::{
    break_even_hours, classify_token, make_cross_candidate_at, make_spot_short_perpetual_long,
    make_spread_opportunity, strategy_reference_price,
};
use arbiview::models::{Leg, Token};
use arbiview::num::Double;

fn d(x: f64) -> Double {
    Double::from_bits(x.to_bits())
}

fn f(x: Double) -> f64 {
    f64::from_bits(x.bits)
}

fn read(text: &str) -> Json {
    to_json(&serde_json::from_str(text).unwrap())
}

fn to_json(value: &serde_json::Value) -> Json {
    match value {
        serde_json::Value::Null => Json::Null,
        serde_json::Value::Bool(b) => Json::Bool(*b),
        serde_json::Value::Number(n) => Json::Number(Numeral {
            value: d(n.as_f64().unwrap()),
            integer: n.as_i64(),
            text: n.to_string(),
        }),
        serde_json::Value::String(s) => Json::Text(Text {
            text: s.clone(),
            number: s.parse::<f64>().ok().map(d),
            integer: s.parse::<i64>().ok(),
        }),
        serde_json::Value::Array(items) => Json::List(items.iter().map(to_json).collect()),
        serde_json::Value::Object(members) => {
            Json::Object(members.iter().map(|(k, v)| (k.clone(), to_json(v))).collect())
        }
    }
}

#[test]
fn parses_binance_book_ticker_websocket_quote() {
    let quote = live_quote_from_binance(&read(
        r#"{"b": "2.662", "B": "14.81", "a": "2.664", "A": "144.48"}"#,
    ))
    .expect("Binance quote");
    assert_eq!(f(quote.bid), 2.662);
    assert_eq!(f(quote.ask), 2.664);
    assert_eq!(f(quote.bid_quantity), 14.81);
    assert_eq!(f(quote.ask_quantity), 144.48);
}

#[test]
fn parses_bybit_ticker_websocket_quote() {
    let quote = live_quote_from_bybit(&read(
        r#"{
            "data": {
                "bid1Price": "2.660", "bid1Size": "45.2",
                "ask1Price": "2.665", "ask1Size": "4.4"
            }
        }"#,
    ))
    .expect("Bybit quote");
    assert_eq!(f(quote.bid), 2.660);
    assert_eq!(f(quote.ask), 2.665);
    assert_eq!(f(quote.bid_quantity), 45.2);
    assert_eq!(f(quote.ask_quantity), 4.4);
}

#[test]
fn parses_bybit_orderbook_websocket_quote() {
    let quote = live_quote_from_bybit(&read(
        r#"{
            "data": {
                "b": [["2.660", "45.2"]],
                "a": [["2.665", "4.4"]]
            }
        }"#,
    ))
    .expect("Bybit order book");
    assert_eq!(f(quote.bid), 2.660);
    assert_eq!(f(quote.ask), 2.665);
    assert_eq!(f(quote.bid_quantity), 45.2);
    assert_eq!(f(quote.ask_quantity), 4.4);
}

fn time_weighted_spread_average(points: &[(i64, f64)], half_life_hours: f64) -> Option<f64> {
    let points: Vec<(i64, Double)> = points.iter().map(|point| (point.0, d(point.1))).collect();
    let exponents = weight_exponents(&points, d(half_life_hours))?;
    let weights: Vec<Double> = exponents.iter().map(|x| d(2f64.powf(f(*x)))).collect();
    time_weighted_average(&points, d(half_life_hours), &weights).map(f)
}

#[test]
fn weighted_spread_average_prioritizes_recent_hours() {
    let hour = 60 * 60 * 1_000;
    let points = vec![
        (0, 0.10),
        (18 * hour, 0.0),
        (23 * hour, 0.0),
        (24 * hour, 0.0),
    ];
    let simple_average = points.iter().map(|point| point.1).sum::<f64>() / points.len() as f64;
    let weighted = time_weighted_spread_average(&points, 6.0).expect("weighted spread average");
    assert!(weighted < simple_average / 2.0);
}

#[test]
fn weighted_spread_average_tracks_recent_spike_more_than_old_values() {
    let hour = 60 * 60 * 1_000;
    let points = vec![
        (0, 0.0),
        (18 * hour, 0.0),
        (23 * hour, 0.0),
        (24 * hour, 0.04),
    ];
    let simple_average = points.iter().map(|point| point.1).sum::<f64>() / points.len() as f64;
    let weighted = time_weighted_spread_average(&points, 6.0).expect("weighted spread average");
    assert!(weighted > simple_average);
}

#[test]
fn an_average_halves_the_weight_with_every_half_life() {
    let hour = 60 * 60 * 1_000;
    let points = [(0, 3.0), (6 * hour, 0.0)];
    let weighted = time_weighted_spread_average(&points, 6.0).unwrap();
    assert_eq!(weighted, 3.0 * 0.5 / 1.5);
    assert!(time_weighted_spread_average(&[], 6.0).is_none());
    assert!(time_weighted_spread_average(&points, 0.0).is_none());
}

#[test]
fn an_average_needs_points_and_a_positive_half_life_only() {
    let hour = 60 * 60 * 1_000;
    let points = [(-1_000_000 * hour, 9.0), (0, 0.25)];
    assert_eq!(time_weighted_spread_average(&points, 1e-3), Some(0.25));
    assert_eq!(time_weighted_spread_average(&points[..1], 6.0), Some(9.0));
    for half_life in [0.0, -0.0, -1.0, f64::INFINITY, f64::NAN] {
        assert!(time_weighted_spread_average(&points, half_life).is_none());
    }
}

#[test]
fn an_average_lies_between_its_values_whatever_their_order_or_date() {
    let hour = 60 * 60 * 1_000;
    let points = [(0, 0.031), (7 * hour, -0.012), (9 * hour, 0.204), (24 * hour, 0.07)];
    let weighted = time_weighted_spread_average(&points, 6.0).unwrap();
    assert!((-0.012..=0.204).contains(&weighted));
    let turned = [points[2], points[0], points[3], points[1]];
    let again = time_weighted_spread_average(&turned, 6.0).unwrap();
    assert!((weighted - again).abs() <= 1e-15);
    let moved: Vec<(i64, f64)> = points.iter().map(|point| (point.0 + 1_700_000_000_123, point.1)).collect();
    assert_eq!(time_weighted_spread_average(&moved, 6.0), Some(weighted));
}

#[test]
fn classifies_cmc_and_tradefi_independently() {
    let cmc = Token {
        symbol: "BTC".into(),
        name: "Bitcoin".into(),
        rank: Some(1),
        tags: vec!["cmc200".into()],
    };
    let crypto = test_leg("Binance", vec![]);
    let bybit_crypto = test_leg("Bybit", vec![]);
    let btc = classify_token("BTC", Some(&cmc), &crypto, &bybit_crypto);
    assert_eq!(btc.tags, vec!["cmc200"]);
    assert_eq!(btc.rank, Some(1));

    let stock = test_leg("Binance", vec!["tradefi".into()]);
    let bybit_stock = test_leg("Bybit", vec!["tradefi".into()]);
    let micron = classify_token("MU", None, &stock, &bybit_stock);
    assert_eq!(micron.tags, vec!["tradefi"]);
    assert_eq!(micron.rank, None);
}

#[test]
fn strategy_price_falls_back_to_last_above_point_one_percent() {
    let price = |mark: f64, last: f64| {
        let (price, uses_last) = strategy_reference_price(d(mark), d(last));
        (f(price), uses_last)
    };
    assert_eq!(price(100.1, 100.0), (100.1, false));
    assert_eq!(price(100.1001, 100.0), (100.0, true));
    assert_eq!(price(99.8999, 100.0), (100.0, true));
}

#[test]
fn break_even_uses_spread_deviation_from_24h_average() {
    let hours = |funding: f64, fees: f64, deviation: f64| f(break_even_hours(d(funding), d(fees), d(deviation)));
    assert_eq!(hours(0.001, 0.0021, 0.01), 0.0);
    assert!((hours(0.001, 0.0021, -0.01) - 12.1).abs() < 1e-9);
}

#[test]
fn binance_spot_short_perpetual_long_is_execution_eligible() {
    let token = Token {
        symbol: "TEST".into(),
        name: "Test".into(),
        rank: None,
        tags: vec![],
    };
    let mut perpetual = test_leg("Binance", vec![]);
    perpetual.rate = d(-0.008);
    let mut spot = test_leg("Binance", vec![]);
    spot.market = "spot".into();
    spot.bid = d(1.01);
    let opportunity = make_spot_short_perpetual_long(&token, &perpetual, &spot).expect("opportunity");
    assert!((f(opportunity.funding_per_hour) - 0.001).abs() < 1e-12);
    assert_eq!(opportunity.route_type, "spot_perpetual");
    assert!(opportunity.execution_supported);
    assert_eq!(opportunity.long.market, "perpetual");
    assert_eq!(opportunity.short.market, "spot");

    perpetual.rate = d(0.001);
    assert!(make_spot_short_perpetual_long(&token, &perpetual, &spot).is_none());
}

fn test_leg(exchange: &str, tags: Vec<String>) -> Leg {
    Leg {
        exchange: exchange.into(),
        market: "perpetual".into(),
        base: "TEST".into(),
        symbol: "TESTUSDT".into(),
        bid: d(1.0),
        ask: d(1.0),
        bid_quantity: d(100.0),
        ask_quantity: d(100.0),
        mark: d(1.0),
        rate: d(0.0),
        interval_hours: d(8.0),
        next_funding_time: 0,
        qty_step: d(0.01),
        tags,
        volume_24h_usdt: d(1_000_000.0),
    }
}

fn test_token() -> Token {
    Token {
        symbol: "TEST".into(),
        name: "TEST".into(),
        rank: None,
        tags: vec![],
    }
}

#[test]
fn spread_arbitrage_has_one_direction_from_low_price_to_high_price() {
    let token = test_token();
    let mut binance = test_leg("Binance", vec![]);
    binance.bid = d(99.9);
    binance.ask = d(100.0);
    let mut bybit = test_leg("Bybit", vec![]);
    bybit.bid = d(101.0);
    bybit.ask = d(101.1);

    let opportunity = make_spread_opportunity(&token, &binance, &bybit).expect("price dislocation");
    assert_eq!(opportunity.long.exchange, "Binance");
    assert_eq!(opportunity.short.exchange, "Bybit");
    assert!((f(opportunity.spread) - 0.01).abs() < 1e-12);

    binance.bid = d(102.0);
    binance.ask = d(102.1);
    bybit.bid = d(100.0);
    bybit.ask = d(100.1);
    let reverse = make_spread_opportunity(&token, &binance, &bybit).expect("reverse dislocation");
    assert_eq!(reverse.long.exchange, "Bybit");
    assert_eq!(reverse.short.exchange, "Binance");
}

#[test]
fn spread_arbitrage_prefilter_requires_more_than_half_percent_absolute_gap() {
    let token = test_token();
    let mut binance = test_leg("Binance", vec![]);
    binance.ask = d(100.0);
    let mut bybit = test_leg("Bybit", vec![]);
    bybit.bid = d(100.5);
    assert!(make_spread_opportunity(&token, &binance, &bybit).is_none());

    bybit.bid = d(100.51);
    assert!(make_spread_opportunity(&token, &binance, &bybit).is_some());
}

#[test]
fn cross_funding_projection_uses_live_rate_for_current_cycle_and_weighted_rate_later() {
    let now = 9 * 60 * 60 * 1_000 + 30 * 60 * 1_000;
    let token = test_token();
    let mut long = test_leg("Binance", vec![]);
    long.rate = d(0.001);
    long.interval_hours = d(4.0);
    long.next_funding_time = 12 * 60 * 60 * 1_000;
    let mut short = test_leg("Bybit", vec![]);
    short.rate = d(0.002);
    short.interval_hours = d(1.0);
    short.next_funding_time = 10 * 60 * 60 * 1_000;

    let candidate = make_cross_candidate_at(&token, &long, &short, now).expect("funding direction");
    assert_eq!(candidate.long.exchange, "Binance");
    assert_eq!(candidate.short.exchange, "Bybit");
    let (average, hours) =
        cross_funding_projection(&long, &short, now, d(0.002), d(0.001)).expect("profitable projection");
    assert_eq!(hours, 1);
    assert!((f(average) - 0.002).abs() < 1e-12);
    assert_eq!(f(projected_rate_at(&short, 10 * 60 * 60 * 1_000, d(0.001))), 0.002);
    assert_eq!(f(projected_rate_at(&short, 11 * 60 * 60 * 1_000, d(0.001))), 0.001);
    assert_eq!(f(projected_rate_at(&long, 11 * 60 * 60 * 1_000, d(0.002))), 0.0);
}

#[test]
fn cross_funding_projection_selects_maximum_average_and_horizon() {
    let now = 8 * 60 * 60 * 1_000 + 30 * 60 * 1_000;
    let mut long = test_leg("Binance", vec![]);
    long.rate = d(0.008);
    long.interval_hours = d(8.0);
    long.next_funding_time = 16 * 60 * 60 * 1_000;
    let mut short = test_leg("Bybit", vec![]);
    short.rate = d(0.001);
    short.interval_hours = d(1.0);
    short.next_funding_time = 9 * 60 * 60 * 1_000;

    let (average, hours) =
        cross_funding_projection(&long, &short, now, d(0.008), d(0.002)).expect("profitable projection");
    assert_eq!(hours, 7);
    assert!((f(average) - (0.001 + 6.0 * 0.002) / 7.0).abs() < 1e-12);
}
