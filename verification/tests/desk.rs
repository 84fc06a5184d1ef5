use arbiview::config::{telegram, Config, Setting, TradingMode};
use arbiview::failure::{http_status, Failure, Reason};
use arbiview::json::{render, Json, Numeral, Text};
use arbiview::ledger::{amount_of, find_entry};
use arbiview::num::Double;
use arbiview::parsing::{parse_i64, parse_unsigned, split_whitespace, trim, trim_end};
use arbiview::signing::{
    client_order_id, hmac_sign, invalid_response, new_client_order_id, new_id, query_of, rejected, rejected_body, sign,
    sign_bybit, sign_bybit_stream, signed_url,
};
use arbiview::sorting::{sorted_texts, stable_order, text_precedes};
use arbiview::text::{
    base_of_symbol, contains, digits_text, ends_with, int_text, join3, same_ignoring_case, split,
    starts_with, to_ascii_lowercase, to_ascii_uppercase, trim_end_matches,
};

fn d(x: f64) -> Double {
    Double::from_bits(x.to_bits())
}

fn f(x: Double) -> f64 {
    f64::from_bits(x.bits)
}

fn settings(list: &[(&str, &str)]) -> Vec<Setting> {
    list.iter()
        .map(|(name, value)| Setting {
            name: name.to_string(),
            value: value.to_string(),
            number: value.parse::<f64>().ok().map(d),
        })
        .collect()
}

#[test]
fn a_desk_trades_on_paper_unless_told_otherwise() {
    let config = Config::from_env(&settings(&[])).unwrap();
    assert_eq!(config.trading_mode, TradingMode::Paper);
    assert_eq!(config.port, 8080);
    assert_eq!(config.cmc_api_key, "");
    assert_eq!(config.web_origin, "http://localhost:3000");
    assert_eq!(f(config.position_tolerance_usdt), 10.0);
    assert_eq!(config.max_slippage_bps, 50);
    assert!(config.binance.is_none() && config.bybit.is_none() && config.telegram.is_none());
    assert!(!config.spread_strategy_enabled);
    assert!(config.spread_strategy_state_path.is_none() && config.auto_close_state_path.is_none());
}

#[test]
fn settings_are_read() {
    let config = Config::from_env(&settings(&[
        ("ARBIVIEW_TRADING_MODE", "live"),
        ("PORT", "9000"),
        ("CMC_API_KEY", "cmc"),
        ("BINANCE_API_KEY", "k1"),
        ("BINANCE_API_SECRET", "s1"),
        ("BYBIT_API_KEY", "k2"),
        ("BYBIT_API_SECRET", "s2"),
        ("WEB_ORIGIN", "https://desk.example"),
        ("POSITION_TOLERANCE_USDT", "2.5"),
        ("MAX_SLIPPAGE_BPS", "30"),
        ("SPREAD_STRATEGY_ENABLED", "true"),
        ("AUTO_CLOSE_STATE_PATH", "rules.json"),
    ]))
    .unwrap();
    assert_eq!(config.trading_mode, TradingMode::Live);
    assert_eq!(config.port, 9000);
    assert_eq!(config.cmc_api_key, "cmc");
    assert_eq!(config.web_origin, "https://desk.example");
    assert_eq!(f(config.position_tolerance_usdt), 2.5);
    assert_eq!(config.max_slippage_bps, 30);
    assert!(config.spread_strategy_enabled);
    assert_eq!(config.auto_close_state_path.as_deref(), Some("rules.json"));
    let (binance, bybit) = (config.binance.unwrap(), config.bybit.unwrap());
    assert_eq!((binance.api_key.as_str(), binance.api_secret.as_str()), ("k1", "s1"));
    assert_eq!((bybit.api_key.as_str(), bybit.api_secret.as_str()), ("k2", "s2"));
}

#[test]
fn numbers_that_do_not_read_are_passed_over() {
    let config = Config::from_env(&settings(&[
        ("PORT", "70000"),
        ("MAX_SLIPPAGE_BPS", "many"),
        ("POSITION_TOLERANCE_USDT", "little"),
    ]))
    .unwrap();
    assert_eq!(config.port, 8080);
    assert_eq!(config.max_slippage_bps, 50);
    assert_eq!(f(config.position_tolerance_usdt), 10.0);
}

#[test]
fn live_trading_needs_both_keys() {
    let one = settings(&[
        ("ARBIVIEW_TRADING_MODE", "live"),
        ("BINANCE_API_KEY", "k"),
        ("BINANCE_API_SECRET", "s"),
        ("BYBIT_API_KEY", "k"),
    ]);
    let Err(failure) = Config::from_env(&one) else { panic!() };
    assert_eq!(
        failure.message(),
        "live mode requires BINANCE_API_KEY/SECRET and BYBIT_API_KEY/SECRET"
    );
    let Err(failure) = Config::from_env(&settings(&[("ARBIVIEW_TRADING_MODE", "dream")])) else { panic!() };
    assert_eq!(failure.message(), "ARBIVIEW_TRADING_MODE must be paper or live, got dream");
}

#[test]
fn the_bot_needs_a_token_and_a_chat() {
    let all = [
        ("TELEGRAM_ENABLED", "true"),
        ("TELEGRAM_BOT_TOKEN", "t"),
        ("TELEGRAM_CHAT_ID", "-100"),
        ("TELEGRAM_TOPIC_ID", "7"),
        ("TELEGRAM_AUTHORIZED_USERS", "11, 12,x,13"),
    ];
    let chat = telegram(&settings(&all)).unwrap();
    assert_eq!((chat.token.as_str(), chat.chat_id, chat.topic_id), ("t", -100, Some(7)));
    assert_eq!(chat.authorized_users, vec![11, 12, 13]);
    for missing in 0..3 {
        let mut some = all.to_vec();
        some.remove(missing);
        assert!(telegram(&settings(&some)).is_none());
    }
}

#[test]
fn requests_are_signed_with_sha256() {
    let expected = "f7bc83f430538424b13298e6aa6fb143ef4d59a14946175997479dbc2d1a3cd8";
    let message = "The quick brown fox jumps over the lazy dog";
    assert_eq!(sign("key", message), expected);
    assert_eq!(hmac_sign("key", message), expected);
}

#[test]
fn a_signed_address_names_a_window_once() {
    let signature = "caa8defb874a6681849ef2e4624d7c071fd7080dc7bf97ae6e18892a8c0ec699";
    assert_eq!(
        signed_url("fapi.binance.com", "/fapi/v1/order", "symbol=BTCUSDT&timestamp=1", "secret"),
        format!("https://fapi.binance.com/fapi/v1/order?symbol=BTCUSDT&timestamp=1&recvWindow=10000&signature={signature}")
    );
    assert_eq!(
        signed_url(
            "fapi.binance.com",
            "/fapi/v1/order",
            "symbol=BTCUSDT&timestamp=1&recvWindow=10000",
            "secret"
        ),
        format!("https://fapi.binance.com/fapi/v1/order?symbol=BTCUSDT&timestamp=1&recvWindow=10000&signature={signature}")
    );
}

#[test]
fn calls_of_bybit_are_signed_over_time_key_and_payload() {
    assert_eq!(sign_bybit("secret", "public", 17, "category=linear"), "cdcdb147ceabc3707f08bfa050f450bb2260ae75c5ef4cdaee1da02d1db04926");
    assert_eq!(sign_bybit_stream("secret", 17), "9c82be1c5ec717a7ee1504d5e014586325ebde8ea9aa260e1feb2f75fe074f3e");
    assert_eq!(query_of("/v5/order?category=linear&x=?"), "category=linear&x=?");
    assert_eq!(query_of("/v5/order"), "");
}

#[test]
fn orders_have_names_of_their_own() {
    let (first, second) = (new_client_order_id(), new_client_order_id());
    assert_ne!(first, second);
    assert_eq!(first.len(), 34);
    assert!(first.starts_with("av"));
    assert!(first.chars().skip(2).all(|c| c.is_ascii_hexdigit() && !c.is_ascii_uppercase()));
    assert_eq!(client_order_id("0123"), "av0123");
    let (first, second) = (new_id(), new_id());
    assert_ne!(first, second);
    assert_eq!(first.len(), 36);
    let groups: Vec<usize> = first.split('-').map(|group| group.len()).collect();
    assert_eq!(groups, vec![8, 4, 4, 4, 12]);
    assert_eq!(first.as_bytes()[14], b'4');
    assert!(b"89ab".contains(&first.as_bytes()[19]));
    assert!(b"89ab".contains(&new_client_order_id().as_bytes()[18]));
}

#[test]
fn a_refused_request_is_told_by_its_body() {
    let failure = rejected_body("Binance", "400 Bad Request", r#"{"code":-1,"msg":"no"}"#, "msg");
    assert_eq!(failure.message(), "Binance API HTTP 400 Bad Request: no");
    let failure = rejected_body("Bybit", "503", "gone", "retMsg");
    assert_eq!(failure.message(), "Bybit API HTTP 503: request rejected");
    let failure = rejected_body("Bybit", "503", r#"{"retMsg":7}"#, "retMsg");
    assert_eq!(failure.message(), "Bybit API HTTP 503: request rejected");
    assert_eq!(
        invalid_response("Bybit", "eof".to_string()).detail(),
        "invalid Bybit API response: eof"
    );
    assert_eq!(rejected("X", "500", Some("why".to_string())).message(), "X API HTTP 500: why");
}

#[test]
fn a_failure_tells_what_lies_behind_it() {
    let failure = Failure::because(Reason::BalancePreflight, "timeout".to_string());
    assert_eq!(failure.message(), "balance preflight failed; no orders were sent");
    assert_eq!(failure.detail(), "balance preflight failed; no orders were sent: timeout");
    assert_eq!(Failure::new(Reason::RuleNotFound).detail(), "auto-close rule not found");
}

#[test]
fn an_exposed_leg_is_told_by_the_status() {
    assert_eq!(http_status("NAKED_EXPOSURE: repair it"), 502);
    assert_eq!(http_status("what NAKED_EXPOSURE means"), 502);
    assert_eq!(http_status("position not found"), 400);
}

#[test]
fn failures_are_put_into_words() {
    let texts = [
        (Reason::SpreadWait { current: d(0.00123), threshold: d(0.002) }, "SPREAD_WAIT: current executable spread 0.1230% is below threshold 0.2000%"),
        (Reason::LeavesTooLittle { tolerance: d(10.0) }, "targetNotionalUsdt must leave at least 10.00 USDT per leg; use close for a full exit"),
        (Reason::InsufficientBalance { exchange: "Bybit".to_string(), available: d(1.0), required: d(105.0) }, "Bybit available balance 1.00 is below required safety amount 105.00; no orders were sent"),
        (Reason::BorrowLimit { maximum: d(1.5), required: d(2.0), base: "ABC".to_string() }, "Binance margin maximum borrowable 1.5 is below required 2 ABC; no orders were sent"),
        (Reason::Slippage { exchange: "Bybit".to_string(), actual_bps: d(61.25), limit: 50, client_order_id: "av1".to_string() }, "Bybit fill slippage 61.2bps exceeded limit 50bps; clientOrderId=av1"),
        (Reason::PhaseTwoExhausted { attempts: 3, anomalies: 1, mismatch: d(25.5), percent: d(12.345) }, "NAKED_EXPOSURE: phase two exhausted after 3 attempts (1 anomalies); actual position mismatch 25.500000 USDT (12.35%) exceeds both 10 USDT and 1%"),
        (Reason::SpreadNoFillResidual { mismatch: d(2.0) }, "SPREAD_NO_FILL: exchange position synchronization produced only 2.000000 USDT of residual mismatch"),
        (Reason::IncompleteLeg { mismatch: d(2.0) }, "position reconciliation returned an incomplete leg with 2.000000 USDT residual mismatch, within protection tolerance"),
        (Reason::ReductionMissed { target: d(50.0), long: d(1.0), short: d(2.0) }, "reduction target was not reached; target 50.00 USDT, actual LONG 1.00 / SHORT 2.00 USDT"),
        (Reason::UnsupportedMarket { exchange: "X".to_string(), market: "spot".to_string() }, "unsupported X spot market"),
    ];
    for (reason, text) in texts {
        assert_eq!(reason.message(), text);
    }
}

#[test]
fn json_is_written_like_serde_does() {
    let text = Json::Text(Text { text: "a\"b\n".to_string(), number: None, integer: None });
    assert_eq!(render(&text), "\"a\\\"b\\n\"");
    let two = Json::Number(Numeral { value: d(2.0), integer: Some(2), text: "2".to_string() });
    let value = Json::Object(vec![
        ("op".to_string(), text),
        ("n".to_string(), Json::List(vec![two, Json::Null, Json::Bool(true)])),
    ]);
    assert_eq!(render(&value), r#"{"op":"a\"b\n","n":[2,null,true]}"#);
}

#[test]
fn texts_are_taken_apart_and_compared() {
    assert!(contains("an IOC order", "IOC") && !contains("ioc", "IOC") && contains("x", ""));
    assert!(starts_with("BTCUSDT", "BTC") && !starts_with("BTC", "BTCUSDT"));
    assert!(ends_with("BTCUSDT", "USDT") && !ends_with("DT", "USDT"));
    assert_eq!(trim_end_matches("XUSDTUSDT", "USDT"), "X");
    assert_eq!(base_of_symbol("BTCUSDT"), "BTC");
    assert_eq!(to_ascii_uppercase("aBc1"), "ABC1");
    assert_eq!(to_ascii_lowercase("AbC1"), "abc1");
    assert!(same_ignoring_case("Bybit", "bYBIT") && !same_ignoring_case("a", "ab"));
    assert_eq!(split("a|b||c", '|'), vec!["a", "b", "", "c"]);
    assert_eq!(split("", '|'), vec![""]);
    assert_eq!(join3("a", "b", "c", ":"), "a:b:c");
    assert_eq!(digits_text(0), "0");
    assert_eq!(digits_text(u128::MAX), u128::MAX.to_string());
    assert_eq!(int_text(i64::MIN), i64::MIN.to_string());
}

#[test]
fn whole_numbers_are_read_like_the_standard_library_does() {
    for text in ["0", "-0", "+5", "-17", "9223372036854775807", "9223372036854775808", "-9223372036854775808", "", "-", "+", " 1", "1 ", "1.0", "٣"] {
        assert_eq!(parse_i64(text), text.parse::<i64>().ok(), "{text:?}");
        assert_eq!(parse_unsigned(text, 65535), text.parse::<u16>().ok().map(u64::from), "{text:?}");
    }
    assert_eq!(split_whitespace("  a\tb\u{3000}c \n"), vec!["a", "b", "c"]);
    assert_eq!(trim(" \u{a0}x y\n"), "x y");
    assert_eq!(trim_end(" x \t"), " x");
}

#[test]
fn a_stable_order_keeps_equal_items_in_place() {
    assert_eq!(stable_order(&vec![3, 1, 2, 1, 3]), vec![1, 3, 2, 0, 4]);
    assert_eq!(stable_order(&vec![]), Vec::<usize>::new());
    let list: Vec<String> = ["b", "a", "ab", "", "é", "Z"].iter().map(|s| s.to_string()).collect();
    let mut expected = list.clone();
    expected.sort();
    assert_eq!(sorted_texts(&list), expected);
    assert!(text_precedes("a", "ab") && !text_precedes("ab", "a") && text_precedes("Z", "a"));
}

#[test]
fn a_ledger_counts_its_first_entry() {
    let ledger = vec![("A".to_string(), d(1.5)), ("B".to_string(), d(2.0)), ("A".to_string(), d(9.0))];
    assert_eq!(find_entry(&ledger, "A"), Some(0));
    assert_eq!(find_entry(&ledger, "C"), None);
    assert_eq!(f(amount_of(&ledger, "B")), 2.0);
    assert_eq!(f(amount_of(&ledger, "C")), 0.0);
}
