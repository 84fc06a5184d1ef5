use arbiview::failure::{Failure, Reason};
use arbiview::json::{Json, Numeral, Text};
use arbiview::models::OrderExecution;
use arbiview::num::Double;
use arbiview::trading::orders::{
    booked, bybit_position_idx, check_leverage_answer, confirmed_order_or_error, futures_order_query,
    futures_status_query, is_accepted, is_hedge_mode, leverage_body, leverage_query, linear_order_body,
    linear_status_path, margin_order_query, margin_status_query, set_leverage, side_for_binance,
    venue_of, FuturesOrder, LeverageCall, LinearOrder, MarginOrder, OrderStep, Venue, MARGIN_POLLS,
};

fn d(x: f64) -> Double {
    Double::from_bits(x.to_bits())
}

fn f(x: Double) -> f64 {
    f64::from_bits(x.bits)
}

fn read(text: &str) -> Json {
    to_json(&serde_json::from_str(text).unwrap())
}

fn to_json(value: &serde_json::Value) -> Json {
    match value {
        serde_json::Value::Null => Json::Null,
        serde_json::Value::Bool(b) => Json::Bool(*b),
        serde_json::Value::Number(n) => Json::Number(Numeral {
            value: d(n.as_f64().unwrap()),
            integer: n.as_i64(),
            text: n.to_string(),
        }),
        serde_json::Value::String(s) => Json::Text(Text {
            text: s.clone(),
            number: s.parse::<f64>().ok().map(d),
            integer: s.parse::<i64>().ok(),
        }),
        serde_json::Value::Array(items) => Json::List(items.iter().map(to_json).collect()),
        serde_json::Value::Object(members) => {
            Json::Object(members.iter().map(|(k, v)| (k.clone(), to_json(v))).collect())
        }
    }
}

fn order(exchange: &str, status: &str, quantity: f64, price: f64) -> OrderExecution {
    OrderExecution {
        exchange: exchange.to_string(),
        client_order_id: "av1".to_string(),
        order_id: "1".to_string(),
        status: status.to_string(),
        executed_quantity: d(quantity),
        average_price: d(price),
    }
}

fn finished(step: OrderStep) -> Result<OrderExecution, String> {
    match step {
        OrderStep::Finish(result) => result.map_err(|failure| failure.detail()),
        _ => panic!("the order is not settled"),
    }
}

const FILLED: &str = r#"{"orderId": 77, "status": "FILLED", "executedQty": "2", "avgPrice": "10.5"}"#;
const EMPTY: &str = r#"{"orderId": 77, "status": "NEW", "executedQty": "0", "avgPrice": "0"}"#;

#[test]
fn markets_have_venues() {
    assert_eq!(venue_of("Binance", "perpetual").unwrap(), Venue::BinanceFutures);
    assert_eq!(venue_of("Binance", "spot").unwrap(), Venue::BinanceMargin);
    assert_eq!(venue_of("Bybit", "perpetual").unwrap(), Venue::BybitLinear);
    assert_eq!(
        venue_of("Bybit", "spot").err().unwrap().message(),
        "unsupported Bybit spot market"
    );
    assert_eq!(side_for_binance("Buy"), "BUY");
    assert_eq!(side_for_binance("Sell"), "SELL");
}

#[test]
fn a_futures_order_is_written_for_its_mode() {
    assert_eq!(
        futures_order_query("ABCUSDT", "BUY", d(1.5), false, "av1", None, false, 7),
        "symbol=ABCUSDT&side=BUY&type=MARKET&quantity=1.5&newClientOrderId=av1&newOrderRespType=RESULT&reduceOnly=false&timestamp=7"
    );
    assert_eq!(
        futures_order_query("ABCUSDT", "SELL", d(2.0), true, "av1", Some(d(10.25)), true, 7),
        "symbol=ABCUSDT&side=SELL&type=LIMIT&timeInForce=IOC&price=10.25&quantity=2&newClientOrderId=av1&newOrderRespType=RESULT&positionSide=LONG&timestamp=7"
    );
    assert!(futures_order_query("A", "BUY", d(1.0), true, "x", None, true, 7).contains("&positionSide=SHORT&"));
    assert_eq!(futures_status_query("A", "x", 7), "symbol=A&origClientOrderId=x&timestamp=7");
    assert!(is_hedge_mode(&read(r#"{"dualSidePosition": true}"#)));
    assert!(!is_hedge_mode(&read(r#"{"dualSidePosition": "true"}"#)));
}

#[test]
fn a_margin_order_sells_what_is_borrowed_and_buys_it_back() {
    assert_eq!(
        margin_order_query("ABCUSDT", "SELL", d(1.5), false, "av1", None, 7).unwrap(),
        "symbol=ABCUSDT&isIsolated=FALSE&side=SELL&type=MARKET&quantity=1.5&sideEffectType=AUTO_BORROW_REPAY&newClientOrderId=av1&newOrderRespType=FULL&timestamp=7"
    );
    assert_eq!(
        margin_order_query("ABCUSDT", "BUY", d(1.5), true, "av1", Some(d(2.0)), 7).unwrap(),
        "symbol=ABCUSDT&isIsolated=FALSE&side=BUY&type=LIMIT&timeInForce=IOC&price=2&quantity=1.5&sideEffectType=AUTO_REPAY&newClientOrderId=av1&newOrderRespType=FULL&timestamp=7"
    );
    for (side, reduce_only) in [("BUY", false), ("SELL", true)] {
        let failure = margin_order_query("A", side, d(1.0), reduce_only, "x", None, 7).err().unwrap();
        assert_eq!(
            failure.message(),
            "Binance spot-margin route only supports opening SELL and repayment BUY"
        );
    }
    assert_eq!(
        margin_status_query("A", "x", 7),
        "symbol=A&isIsolated=FALSE&origClientOrderId=x&timestamp=7"
    );
}

#[test]
fn a_linear_order_is_written_as_json() {
    let body = linear_order_body("ABCUSDT", "Buy", d(1.5), false, "av1", 1, Some(d(10.25)));
    let value: serde_json::Value = serde_json::from_str(&body).unwrap();
    assert_eq!(value["category"], "linear");
    assert_eq!(value["symbol"], "ABCUSDT");
    assert_eq!(value["side"], "Buy");
    assert_eq!(value["orderType"], "Limit");
    assert_eq!(value["qty"], "1.5");
    assert_eq!(value["reduceOnly"], false);
    assert_eq!(value["orderLinkId"], "av1");
    assert_eq!(value["positionIdx"], 1);
    assert_eq!(value["price"], "10.25");
    assert_eq!(value["timeInForce"], "IOC");
    let body = linear_order_body("ABCUSDT", "Sell", d(1.5), true, "av1", 0, None);
    let value: serde_json::Value = serde_json::from_str(&body).unwrap();
    assert_eq!(value["orderType"], "Market");
    assert_eq!(value["reduceOnly"], true);
    assert!(value.get("price").is_none() && value.get("timeInForce").is_none());
    assert_eq!(
        linear_status_path("A", "x"),
        "/v5/order/realtime?category=linear&symbol=A&orderLinkId=x"
    );
}

#[test]
fn the_position_index_follows_the_mode() {
    let hedged = read(r#"{"retCode": 0, "result": {"list": [{"positionIdx": 0}, {"positionIdx": 2}]}}"#);
    let one_way = read(r#"{"retCode": 0, "result": {"list": [{"positionIdx": 0}]}}"#);
    assert_eq!(bybit_position_idx(&one_way, "Buy", false).unwrap(), 0);
    assert_eq!(bybit_position_idx(&hedged, "Buy", false).unwrap(), 1);
    assert_eq!(bybit_position_idx(&hedged, "Sell", true).unwrap(), 1);
    assert_eq!(bybit_position_idx(&hedged, "Sell", false).unwrap(), 2);
    assert_eq!(bybit_position_idx(&hedged, "Buy", true).unwrap(), 2);
    let refused = read(r#"{"retCode": 10001, "retMsg": "bad"}"#);
    assert!(!is_accepted(&refused) && is_accepted(&one_way));
    assert_eq!(
        bybit_position_idx(&refused, "Buy", false).err().unwrap().message(),
        "Bybit position mode query failed: \"bad\""
    );
}

#[test]
fn an_order_that_ended_counts_where_it_was_filled() {
    let part = confirmed_order_or_error(order("Bybit", "Cancelled", 1.0, 10.0)).unwrap();
    assert_eq!(part.status, "PartiallyFilled");
    let whole = confirmed_order_or_error(order("Bybit", "Filled", 1.0, 10.0)).unwrap();
    assert_eq!(whole.status, "Filled");
    let none = confirmed_order_or_error(order("Bybit", "Cancelled", 0.0, 0.0)).err().unwrap();
    assert_eq!(none.message(), "Bybit order ended with status=Cancelled, clientOrderId=av1");
}

#[test]
fn an_answered_futures_order_is_settled() {
    let mut run = FuturesOrder::new("av1".to_string());
    let done = finished(run.on_submit(Ok(read(FILLED)))).unwrap();
    assert_eq!((done.exchange.as_str(), done.order_id.as_str(), done.status.as_str()), ("Binance", "77", "FILLED"));
    assert_eq!((f(done.executed_quantity), f(done.average_price)), (2.0, 10.5));
}

#[test]
fn an_unfilled_futures_order_is_waited_for_and_looked_up_once() {
    let mut run = FuturesOrder::new("av1".to_string());
    assert!(matches!(run.on_submit(Ok(read(EMPTY))), OrderStep::Await { millis: 2000 }));
    assert!(matches!(run.on_stream(None), OrderStep::LookUp { after_millis: 0 }));
    let failure = finished(run.on_lookup(Ok(read(EMPTY)))).err().unwrap();
    assert_eq!(
        failure,
        "Binance order fill data unavailable after status polling: status=NEW, clientOrderId=av1"
    );
}

#[test]
fn a_lost_futures_order_is_searched_and_never_sent_again() {
    let mut run = FuturesOrder::new("av1".to_string());
    assert!(matches!(run.on_submit(Err("timeout".to_string())), OrderStep::Await { millis: 2000 }));
    assert!(matches!(run.on_stream(None), OrderStep::LookUp { after_millis: 0 }));
    let failure = finished(run.on_lookup(Err("refused".to_string()))).err().unwrap();
    assert_eq!(
        failure,
        "Binance submit result unknown (timeout); query clientOrderId=av1 before any retry: refused"
    );
    let mut run = FuturesOrder::new("av1".to_string());
    run.on_submit(Err("timeout".to_string()));
    let done = finished(run.on_stream(Some(order("Binance", "FILLED", 2.0, 10.0)))).unwrap();
    assert_eq!(f(done.executed_quantity), 2.0);
    let mut run = FuturesOrder::new("av1".to_string());
    run.on_submit(Err("timeout".to_string()));
    run.on_stream(None);
    assert_eq!(f(finished(run.on_lookup(Ok(read(FILLED)))).unwrap().average_price), 10.5);
}

#[test]
fn a_margin_order_is_polled_eight_times() {
    const SPOT: &str = r#"{"orderId": "x9", "status": "NEW", "executedQty": "0", "cummulativeQuoteQty": "0"}"#;
    let mut run = MarginOrder::new("av1".to_string());
    let mut step = run.on_submit(Ok(read(SPOT)));
    for _ in 0..MARGIN_POLLS {
        assert!(matches!(step, OrderStep::LookUp { after_millis: 250 }));
        step = run.on_lookup(Ok(read(SPOT)));
    }
    assert_eq!(
        finished(step).err().unwrap(),
        "Binance margin fill data unavailable: status=NEW, clientOrderId=av1"
    );
}

#[test]
fn a_lost_margin_order_is_looked_up() {
    let filled = r#"{"orderId": 5, "status": "FILLED", "executedQty": "4", "cummulativeQuoteQty": "10"}"#;
    let mut run = MarginOrder::new("av1".to_string());
    assert!(matches!(run.on_submit(Err("reset".to_string())), OrderStep::LookUp { after_millis: 300 }));
    let done = finished(run.on_lookup(Ok(read(filled)))).unwrap();
    assert_eq!((done.exchange.as_str(), f(done.average_price)), ("Binance Spot Margin", 2.5));
    let mut run = MarginOrder::new("av1".to_string());
    run.on_submit(Err("reset".to_string()));
    assert_eq!(
        finished(run.on_lookup(Err("gone".to_string()))).err().unwrap(),
        "Binance margin submit result unknown (reset); query clientOrderId=av1 before any retry: gone"
    );
}

#[test]
fn a_linear_order_is_confirmed_by_the_stream_or_looked_up() {
    let accepted = r#"{"retCode": 0, "result": {"orderId": "o1"}}"#;
    let mut run = LinearOrder::new("av1".to_string(), false);
    assert!(matches!(run.on_submit(Ok(read(accepted))), OrderStep::Await { millis: 3000 }));
    assert!(matches!(run.on_stream(None), OrderStep::LookUp { after_millis: 0 }));
    let found = r#"{"retCode": 0, "result": {"list": [{"orderStatus": "Filled", "cumExecQty": "3", "avgPrice": "2"}]}}"#;
    let done = finished(run.on_lookup(Ok(read(found)))).unwrap();
    assert_eq!((done.exchange.as_str(), done.order_id.as_str(), done.status.as_str()), ("Bybit", "o1", "Filled"));
    assert_eq!((f(done.executed_quantity), f(done.average_price)), (3.0, 2.0));
}

#[test]
fn what_was_filled_of_an_order_that_was_cut_short_is_booked() {
    let accepted = r#"{"retCode": 0, "result": {"orderId": "o1"}}"#;
    for (status, shown) in [("PartiallyFilled", "PartiallyFilled"), ("Cancelled", "PartiallyFilled"), ("New", "New"), ("Filled", "Filled")] {
        let mut run = LinearOrder::new("av1".to_string(), false);
        run.on_submit(Ok(read(accepted)));
        run.on_stream(None);
        let found = format!(
            r#"{{"retCode": 0, "result": {{"list": [{{"orderStatus": "{status}", "cumExecQty": "3", "avgPrice": "2"}}]}}}}"#
        );
        let outcome = match run.on_lookup(Ok(read(&found))) {
            OrderStep::Finish(outcome) => outcome,
            _ => panic!("the order is not settled"),
        };
        assert_eq!(outcome.is_ok(), status == "Filled");
        let order = booked(outcome).unwrap();
        assert_eq!((order.order_id.as_str(), order.client_order_id.as_str(), order.status.as_str()), ("o1", "av1", shown));
        assert_eq!((f(order.executed_quantity), f(order.average_price)), (3.0, 2.0));
    }
    assert!(booked(Err(Failure::new(Reason::BybitWalletMissing))).is_none());
}

#[test]
fn only_a_filled_linear_order_at_the_market_counts() {
    let accepted = r#"{"retCode": 0, "result": {"orderId": "o1"}}"#;
    let listed = |status: &str| {
        read(&format!(
            r#"{{"retCode": 0, "result": {{"list": [{{"orderStatus": "{status}", "cumExecQty": "3", "avgPrice": "2"}}]}}}}"#
        ))
    };
    for status in ["PartiallyFilled", "New", "Cancelled"] {
        let mut run = LinearOrder::new("av1".to_string(), false);
        run.on_submit(Ok(read(accepted)));
        run.on_stream(None);
        assert_eq!(
            finished(run.on_lookup(Ok(listed(status)))).err().unwrap(),
            format!("Bybit order was not filled in full: status={status}, executedQty=3.00000000, avgPrice=2.00000000, clientOrderId=av1")
        );
        let mut run = LinearOrder::new("av1".to_string(), true);
        run.on_submit(Ok(read(accepted)));
        run.on_stream(None);
        assert_eq!(f(finished(run.on_lookup(Ok(listed(status)))).unwrap().executed_quantity), 3.0);
    }
    for (status, counts) in [("Filled", true), ("PartiallyFilled", false)] {
        let mut run = LinearOrder::new("av1".to_string(), false);
        run.on_submit(Ok(read(accepted)));
        let reported = OrderExecution {
            exchange: "Bybit".to_string(),
            client_order_id: "av1".to_string(),
            order_id: "o1".to_string(),
            status: status.to_string(),
            executed_quantity: d(3.0),
            average_price: d(2.0),
        };
        assert_eq!(finished(run.on_stream(Some(reported))).is_ok(), counts);
    }
}

#[test]
fn what_can_go_wrong_with_a_linear_order_is_told() {
    let mut run = LinearOrder::new("av1".to_string(), false);
    let refused = finished(run.on_submit(Ok(read(r#"{"retCode": 110007, "retMsg": "no money"}"#))));
    assert_eq!(refused.err().unwrap(), "Bybit order rejected: \"no money\"");
    let mut run = LinearOrder::new("av1".to_string(), false);
    assert!(matches!(run.on_submit(Err("reset".to_string())), OrderStep::Await { millis: 3000 }));
    assert_eq!(
        finished(run.on_stream(None)).err().unwrap(),
        "Bybit submit result unknown (reset); confirmation timed out; query orderLinkId=av1 before any retry"
    );
    let accepted = r#"{"retCode": 0, "result": {"orderId": "o1"}}"#;
    let mut run = LinearOrder::new("av1".to_string(), false);
    run.on_submit(Ok(read(accepted)));
    run.on_stream(None);
    assert_eq!(
        finished(run.on_lookup(Ok(read(r#"{"retCode": 0, "result": {"list": []}}"#)))).err().unwrap(),
        "Bybit order confirmation timed out; query orderLinkId=av1 before any retry"
    );
    let mut run = LinearOrder::new("av1".to_string(), false);
    run.on_submit(Ok(read(accepted)));
    run.on_stream(None);
    assert_eq!(
        finished(run.on_lookup(Ok(read(r#"{"retCode": 3, "retMsg": "late"}"#)))).err().unwrap(),
        "Bybit order status failed: \"late\""
    );
}

#[test]
fn a_leverage_is_asked_for_where_there_is_one() {
    assert_eq!(leverage_query("ABCUSDT", 5, 7), "symbol=ABCUSDT&leverage=5&timestamp=7");
    let body: serde_json::Value = serde_json::from_str(&leverage_body("ABCUSDT", 5)).unwrap();
    assert_eq!(body["buyLeverage"], "5");
    assert_eq!(body["sellLeverage"], "5");
    assert!(matches!(set_leverage("Binance", "spot", "A", 5, 7), Ok(LeverageCall::Nothing)));
    assert!(matches!(set_leverage("Binance", "perpetual", "A", 5, 7), Ok(LeverageCall::Binance(q)) if q == leverage_query("A", 5, 7)));
    assert!(matches!(set_leverage("Bybit", "perpetual", "A", 5, 7), Ok(LeverageCall::Bybit(b)) if b == leverage_body("A", 5)));
    assert_eq!(
        set_leverage("Kraken", "perpetual", "A", 5, 7).err().unwrap().message(),
        "unsupported exchange Kraken"
    );
    assert!(check_leverage_answer(&read(r#"{"retCode": 0}"#)).is_ok());
    assert!(check_leverage_answer(&read(r#"{"retCode": 110043}"#)).is_ok());
    assert_eq!(
        check_leverage_answer(&read(r#"{"retCode": 1, "retMsg": "no"}"#)).err().unwrap().message(),
        "Bybit leverage rejected: \"no\""
    );
}
