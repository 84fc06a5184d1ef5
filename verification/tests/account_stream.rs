use arbiview::account_stream::{AccountBalance, AccountStore, Wake};
use arbiview::json::{Json, Numeral, Text};
use arbiview::models::PositionLeg;
use arbiview::num::Double;

fn d(x: f64) -> Double {
    Double::from_bits(x.to_bits())
}

fn f(x: Double) -> f64 {
    f64::from_bits(x.bits)
}

fn read(text: &str) -> Json {
    to_json(&serde_json::from_str(text).unwrap())
}

fn to_json(value: &serde_json::Value) -> Json {
    match value {
        serde_json::Value::Null => Json::Null,
        serde_json::Value::Bool(b) => Json::Bool(*b),
        serde_json::Value::Number(n) => Json::Number(Numeral {
            value: d(n.as_f64().unwrap()),
            integer: n.as_i64(),
            text: n.to_string(),
        }),
        serde_json::Value::String(s) => Json::Text(Text {
            text: s.clone(),
            number: s.parse::<f64>().ok().map(d),
            integer: s.parse::<i64>().ok(),
        }),
        serde_json::Value::Array(items) => Json::List(items.iter().map(to_json).collect()),
        serde_json::Value::Object(members) => {
            Json::Object(members.iter().map(|(k, v)| (k.clone(), to_json(v))).collect())
        }
    }
}

fn leg(exchange: &str, side: &str, unrealized_pnl: f64) -> PositionLeg {
    PositionLeg {
        exchange: exchange.into(),
        market: "perpetual".into(),
        symbol: "BTCUSDT".into(),
        side: side.into(),
        quantity: d(1.0),
        entry_price: d(100.0),
        mark_price: d(101.0),
        unrealized_pnl: d(unrealized_pnl),
        funding_earned: d(0.0),
        funding_rate: d(0.0),
        leverage: 10,
    }
}

#[test]
fn binance_account_update_merges_changed_positions() {
    let mut store = AccountStore::new();
    store.seed_binance(AccountBalance::default(), vec![leg("Binance", "long", 1.0)]);
    store.set_connected("Binance", true);
    store.apply_binance_event(&read(
        r#"{
            "e": "ACCOUNT_UPDATE",
            "a": {
                "B": [{"a":"USDT","wb":"999","cw":"900"}],
                "P": [{"s":"ETHUSDT","pa":"2","ep":"20","up":"1","ps":"LONG"}]
            }
        }"#,
    ));
    let (balance, positions) = store.snapshot("Binance").unwrap();
    assert_eq!(f(balance.equity), 999.0);
    assert_eq!(positions.len(), 2);
}

#[test]
fn bybit_position_zero_removes_only_changed_leg() {
    let mut store = AccountStore::new();
    store.seed_bybit(AccountBalance::default(), vec![leg("Bybit", "short", -1.0)]);
    store.set_connected("Bybit", true);
    store.apply_bybit_event(&read(
        r#"{
            "topic":"position",
            "data":[{"category":"linear","symbol":"BTCUSDT","side":"Sell","size":"0"}]
        }"#,
    ));
    assert!(store.snapshot("Bybit").unwrap().1.is_empty());
}

#[test]
fn an_update_leaves_the_other_legs_alone() {
    let mut store = AccountStore::new();
    let mut other = leg("Bybit", "long", 3.0);
    other.symbol = "ETHUSDT".into();
    store.seed_bybit(AccountBalance::default(), vec![leg("Bybit", "short", -1.0), other]);
    store.set_connected("Bybit", true);
    store.apply_bybit_event(&read(
        r#"{"topic":"position","data":[{"category":"linear","symbol":"BTCUSDT","side":"Sell","size":"0"}]}"#,
    ));
    let positions = store.snapshot("Bybit").unwrap().1;
    assert_eq!(positions.len(), 1);
    assert_eq!(positions[0].symbol, "ETHUSDT");
    assert_eq!(f(positions[0].unrealized_pnl), 3.0);
}

#[test]
fn only_an_order_that_was_recorded_wakes_who_waits_for_one() {
    let mut store = AccountStore::new();
    assert_eq!(store.apply_bybit_event(&read(r#"{"topic":"order","data":[]}"#)), Wake::Nobody);
    assert_eq!(
        store.apply_bybit_event(&read(r#"{"topic":"order","data":[{"orderId":"1","orderStatus":"Filled"}]}"#)),
        Wake::Nobody
    );
    assert!(store.orders.is_empty());
    assert_eq!(
        store.apply_bybit_event(&read(
            r#"{"topic":"order","data":[{"orderId":"1"},{"orderLinkId":"av1","orderStatus":"Filled"}]}"#
        )),
        Wake::Orders
    );
    assert_eq!(store.settled_order("av1").unwrap().status, "Filled");
    assert_eq!(store.apply_bybit_event(&read(r#"{"topic":"order"}"#)), Wake::Nobody);
}

#[test]
fn a_snapshot_needs_a_seed_and_a_connection() {
    let mut store = AccountStore::new();
    assert!(store.snapshot("Binance").is_none());
    store.set_connected("Binance", true);
    assert!(store.snapshot("Binance").is_none());
    store.seed_binance(AccountBalance::default(), vec![]);
    assert!(store.snapshot("Binance").is_some());
    store.set_connected("Binance", false);
    assert!(store.snapshot("Binance").is_none());
    assert!(!store.connected("Binance"));
}

#[test]
fn a_seed_is_read_back() {
    let mut store = AccountStore::new();
    let balance = AccountBalance { equity: d(12.0), available: d(7.0), unrealized_pnl: d(1.5) };
    store.seed_bybit(balance, vec![leg("Bybit", "short", 2.0)]);
    store.set_connected("Bybit", true);
    let (seen, legs) = store.snapshot("Bybit").unwrap();
    assert_eq!(f(seen.equity), 12.0);
    assert_eq!(f(seen.available), 7.0);
    assert_eq!(legs.len(), 1);
    assert_eq!(legs[0].side, "short");
}

#[test]
fn a_reported_order_is_found_once_it_has_ended() {
    let mut store = AccountStore::new();
    store.apply_binance_event(&read(
        r#"{"e":"ORDER_TRADE_UPDATE","o":{"c":"av1","i":7,"X":"PARTIALLY_FILLED","z":"1","ap":"10"}}"#,
    ));
    assert!(store.settled_order("av1").is_none());
    store.apply_binance_event(&read(
        r#"{"e":"ORDER_TRADE_UPDATE","o":{"c":"av1","i":7,"X":"FILLED","z":"2","ap":"10.5"}}"#,
    ));
    let order = store.settled_order("av1").unwrap();
    assert_eq!(order.status, "FILLED");
    assert_eq!(f(order.executed_quantity), 2.0);
    assert_eq!(f(order.average_price), 10.5);
}
