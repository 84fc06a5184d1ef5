use arbiview::config::{Config, Setting};
use arbiview::failure::{Failure, Reason};
use arbiview::json::{render, Json, Numeral, Text};
use arbiview::market::decode::{
    binance_markets, binance_spot_markets, bybit_markets, bybit_spot_markets, quote_url, top_tokens,
    BinanceLists,
};
use arbiview::market::history::{
    candle_url, check_symbol, funding_history, funding_url, history_for_legs, hourly_closes, hourly_gaps,
    latest_rate_at, recent_rates, symbol_urls, HISTORY_HOURS,
};
use arbiview::market::projection::weight_exponents;
use arbiview::market::routes::host;
use arbiview::market::scan::{
    apply_averages, apply_borrow_costs, apply_projections, find_last, rank, scan, BorrowCost, Markets,
    PickStep, Ranking, SpotPick, OFFERS_KEPT,
};
use arbiview::market::search::{ScanAction, ScanRun};
use arbiview::market::service::{
    binance_borrow_available, binance_borrow_rate, borrow_available_url, borrow_rate_request,
    bybit_borrow_rate, quote_stream, spread_average, weighted_funding_average, BorrowRequest,
    MarketService, RouteFacts, RouteNeed,
};
use arbiview::models::{
    CmcResponse, CmcToken, FeeAssumptions, Leg, OpportunitiesResponse, Opportunity, Position, PositionLeg, Token,
};
use arbiview::num::Double;
use arbiview::trading::holdings::{
    binance_balance, binance_margin_short_position, binance_positions, bybit_balance, bybit_positions,
    find_sided, leg_source, margin_debt, max_borrowable, owed_leg, owed_symbols, LegSource,
};
use arbiview::trading::income::{binance_income_query, BybitStatement, IncomeSummary};

fn d(x: f64) -> Double {
    Double::from_bits(x.to_bits())
}

fn f(x: Double) -> f64 {
    f64::from_bits(x.bits)
}

fn read(text: &str) -> Json {
    to_json(&serde_json::from_str(text).unwrap())
}

fn to_json(value: &serde_json::Value) -> Json {
    match value {
        serde_json::Value::Null => Json::Null,
        serde_json::Value::Bool(b) => Json::Bool(*b),
        serde_json::Value::Number(n) => Json::Number(Numeral {
            value: d(n.as_f64().unwrap()),
            integer: n.as_i64(),
            text: n.to_string(),
        }),
        serde_json::Value::String(s) => Json::Text(Text {
            text: s.clone(),
            number: s.parse::<f64>().ok().map(d),
            integer: s.parse::<i64>().ok(),
        }),
        serde_json::Value::Array(items) => Json::List(items.iter().map(to_json).collect()),
        serde_json::Value::Object(members) => {
            Json::Object(members.iter().map(|(k, v)| (k.clone(), to_json(v))).collect())
        }
    }
}

fn market_leg(exchange: &str, market: &str, bid: f64, ask: f64) -> Leg {
    Leg {
        exchange: exchange.to_string(),
        market: market.to_string(),
        base: "ABC".to_string(),
        symbol: "ABCUSDT".to_string(),
        bid: d(bid),
        ask: d(ask),
        bid_quantity: d(100.0),
        ask_quantity: d(100.0),
        mark: d(bid),
        rate: d(0.0),
        interval_hours: d(8.0),
        next_funding_time: 0,
        qty_step: d(0.1),
        tags: vec![],
        volume_24h_usdt: d(0.0),
    }
}

fn held_leg(exchange: &str, market: &str, side: &str, quantity: f64, price: f64) -> PositionLeg {
    PositionLeg {
        exchange: exchange.to_string(),
        market: market.to_string(),
        symbol: "ABCUSDT".to_string(),
        side: side.to_string(),
        quantity: d(quantity),
        entry_price: d(price),
        mark_price: d(price),
        unrealized_pnl: d(0.0),
        funding_earned: d(0.0),
        funding_rate: d(0.0),
        leverage: 5,
    }
}

fn held(long: PositionLeg, short: PositionLeg, notional: f64) -> Position {
    Position {
        id: "live-ABC".to_string(),
        token: "ABC".to_string(),
        status: "open".to_string(),
        opened_at: 0,
        notional_usdt: d(notional),
        leverage: 5,
        long,
        short,
        funding_earned: d(0.0),
        unrealized_pnl: d(0.0),
        current_pnl_usdt: d(0.0),
        current_roi: d(0.0),
        roi_basis_usdt: d(0.0),
        current_funding_per_hour: None,
        current_spread: None,
        current_apy: None,
    }
}

fn offer() -> Opportunity {
    Opportunity {
        id: "ABC-offer".to_string(),
        token: Token { symbol: "ABC".to_string(), name: "Abc".to_string(), rank: None, tags: vec![] },
        long: market_leg("Binance", "perpetual", 9.9, 10.0),
        short: market_leg("Bybit", "perpetual", 10.1, 10.2),
        funding_per_hour: d(0.0001),
        borrow_interest_per_hour: d(0.0),
        apy: d(0.8),
        apy_horizon_hours: 1,
        spread: d(0.01),
        average_spread_24h: d(0.0),
        spread_vs_average: d(0.01),
        fees: d(0.0021),
        break_even_hours: d(10.0),
        route_type: "cross_perpetual".to_string(),
        execution_supported: true,
    }
}


fn fault<T>(result: Result<T, Failure>) -> String {
    match result {
        Ok(_) => panic!("this should fail"),
        Err(failure) => failure.message(),
    }
}

fn named(exchange: &str, market: &str, base: &str, bid: f64, ask: f64, rate: f64) -> Leg {
    let mut leg = market_leg(exchange, market, bid, ask);
    leg.base = base.to_string();
    leg.symbol = format!("{base}USDT");
    leg.rate = d(rate);
    if market == "spot" {
        leg.interval_hours = d(0.0);
    }
    leg
}

const HOUR: i64 = 3_600_000;

#[test]
fn binance_contracts_are_read() {
    let lists = BinanceLists {
        premium: read(r#"[
            {"symbol": "ABCUSDT", "markPrice": "10.5", "lastFundingRate": "0.0001", "nextFundingTime": 99},
            {"symbol": "OLDUSDT", "markPrice": "1", "lastFundingRate": "0", "nextFundingTime": 99},
            {"symbol": "TSLAUSDT", "markPrice": "200", "lastFundingRate": "x", "nextFundingTime": 98}
        ]"#),
        book: read(r#"[
            {"symbol": "ABCUSDT", "bidPrice": "10.4", "askPrice": "10.6", "bidQty": "3", "askQty": "4"},
            {"symbol": "OLDUSDT", "bidPrice": "1", "askPrice": "1"},
            {"symbol": "TSLAUSDT", "bidPrice": "199", "askPrice": "201"}
        ]"#),
        exchange: read(r#"{"symbols": [
            {"symbol": "ABCUSDT", "baseAsset": "ABC", "quoteAsset": "USDT", "contractType": "PERPETUAL", "status": "TRADING",
             "filters": [{"filterType": "PRICE"}, {"filterType": "LOT_SIZE", "stepSize": "0.5"}]},
            {"symbol": "OLDUSDT", "baseAsset": "OLD", "quoteAsset": "USDT", "contractType": "PERPETUAL", "status": "SETTLING"},
            {"symbol": "TSLAUSDT", "baseAsset": "TSLA", "quoteAsset": "USDT", "contractType": "TRADIFI_PERPETUAL", "status": "TRADING"}
        ]}"#),
        funding: read(r#"[{"symbol": "ABCUSDT", "fundingIntervalHours": 4}]"#),
        volumes: read(r#"[{"symbol": "ABCUSDT", "quoteVolume": "1234.5"}]"#),
    };
    let legs = binance_markets(&lists);
    assert_eq!(legs.len(), 2);
    let abc = &legs[0];
    assert_eq!((abc.exchange.as_str(), abc.market.as_str(), abc.base.as_str(), abc.symbol.as_str()), ("Binance", "perpetual", "ABC", "ABCUSDT"));
    assert_eq!((f(abc.bid), f(abc.ask), f(abc.bid_quantity), f(abc.ask_quantity)), (10.4, 10.6, 3.0, 4.0));
    assert_eq!((f(abc.mark), f(abc.rate), f(abc.interval_hours), abc.next_funding_time), (10.5, 0.0001, 4.0, 99));
    assert_eq!((f(abc.qty_step), f(abc.volume_24h_usdt), abc.tags.len()), (0.5, 1234.5, 0));
    let tsla = &legs[1];
    assert_eq!((f(tsla.rate), f(tsla.interval_hours), f(tsla.qty_step), f(tsla.bid_quantity)), (0.0, 8.0, 0.001, 0.0));
    assert_eq!(tsla.tags, vec!["tradefi"]);
}

#[test]
fn bybit_contracts_are_read() {
    let tickers = read(r#"{"result": {"list": [
        {"symbol": "ABCUSDT", "bid1Price": "10", "ask1Price": "11", "bid1Size": "1", "ask1Size": "2", "markPrice": "10.5",
         "fundingRate": "-0.0002", "nextFundingTime": "1234", "turnover24h": "77"},
        {"symbol": "NOTUSDT", "bid1Price": "10", "ask1Price": "11", "markPrice": "10.5", "nextFundingTime": "1"}
    ]}}"#);
    let instruments = read(r#"{"result": {"list": [
        {"symbol": "ABCUSDT", "baseCoin": "ABC", "quoteCoin": "USDT", "contractType": "LinearPerpetual", "status": "Trading",
         "fundingInterval": 240, "lotSizeFilter": {"qtyStep": "0.2"}, "symbolType": "stock"},
        {"symbol": "NOTUSDT", "baseCoin": "NOT", "quoteCoin": "USDC", "contractType": "LinearPerpetual", "status": "Trading"}
    ]}}"#);
    let legs = bybit_markets(&tickers, &instruments);
    assert_eq!(legs.len(), 1);
    let abc = &legs[0];
    assert_eq!((abc.exchange.as_str(), f(abc.interval_hours), abc.next_funding_time), ("Bybit", 4.0, 1234));
    assert_eq!((f(abc.rate), f(abc.qty_step), f(abc.volume_24h_usdt)), (-0.0002, 0.2, 77.0));
    assert_eq!(abc.tags, vec!["tradefi"]);
}

#[test]
fn coins_that_can_be_borrowed_are_read() {
    let exchange = read(r#"{"symbols": [
        {"symbol": "ABCUSDT", "baseAsset": "ABC", "quoteAsset": "USDT", "status": "TRADING", "isMarginTradingAllowed": true,
         "filters": [{"filterType": "LOT_SIZE", "stepSize": "0.01"}]},
        {"symbol": "XYZUSDT", "baseAsset": "XYZ", "quoteAsset": "USDT", "status": "TRADING", "isMarginTradingAllowed": false}
    ]}"#);
    let books = read(r#"[{"symbol": "ABCUSDT", "bidPrice": "10", "askPrice": "12"}, {"symbol": "XYZUSDT", "bidPrice": "1", "askPrice": "1"}]"#);
    let legs = binance_spot_markets(&exchange, &books, &Json::Null);
    assert_eq!(legs.len(), 1);
    assert_eq!((legs[0].market.as_str(), f(legs[0].mark), f(legs[0].qty_step)), ("spot", 11.0, 0.01));
    let tickers = read(r#"[{"symbol": "ABCUSDT", "quoteVolume": "9", "lastPrice": "10.7"}]"#);
    let legs = binance_spot_markets(&exchange, &books, &tickers);
    assert_eq!((f(legs[0].mark), f(legs[0].volume_24h_usdt)), (10.7, 9.0));
    let instruments = read(r#"{"result": {"list": [
        {"symbol": "ABCUSDT", "baseCoin": "ABC", "quoteCoin": "USDT", "status": "Trading", "marginTrading": "utaOnly", "lotSizeFilter": {"basePrecision": "0.05"}},
        {"symbol": "XYZUSDT", "baseCoin": "XYZ", "quoteCoin": "USDT", "status": "Trading", "marginTrading": "none"}
    ]}}"#);
    let tickers = read(r#"{"result": {"list": [
        {"symbol": "ABCUSDT", "bid1Price": "10", "ask1Price": "12", "turnover24h": "5"},
        {"symbol": "XYZUSDT", "bid1Price": "10", "ask1Price": "12"}
    ]}}"#);
    let legs = bybit_spot_markets(&instruments, &tickers);
    assert_eq!(legs.len(), 1);
    assert_eq!((legs[0].exchange.as_str(), f(legs[0].mark), f(legs[0].qty_step)), ("Bybit", 11.0, 0.05));
}

#[test]
fn quotes_of_positions_are_read() {
    let quotes = MarketService::position_quotes(
        &read(r#"[{"symbol": "ABCUSDT", "markPrice": "100", "lastFundingRate": "0.0001"}]"#),
        &read(r#"[{"symbol": "ABCUSDT", "bidPrice": "99", "askPrice": "101"}, {"symbol": "XYZUSDT", "bidPrice": "1", "askPrice": "2"}]"#),
        &read(r#"[{"symbol": "ABCUSDT", "price": "100.05"}]"#),
        &read(r#"{"result": {"list": [{"symbol": "ABCUSDT", "markPrice": "100", "lastPrice": "101", "bid1Price": "99", "ask1Price": "101", "fundingRate": "0.0002"}, {"symbol": "BADUSDT"}]}}"#),
    );
    assert_eq!(quotes.len(), 3);
    assert_eq!((f(quotes[0].reference_price), quotes[0].uses_last_price, f(quotes[0].funding_rate)), (100.0, false, 0.0001));
    assert_eq!((quotes[1].symbol.as_str(), f(quotes[1].mark_price), f(quotes[1].last_price)), ("XYZUSDT", 0.0, 0.0));
    assert_eq!((quotes[2].exchange.as_str(), f(quotes[2].reference_price), quotes[2].uses_last_price), ("Bybit", 101.0, true));
}

#[test]
fn a_quote_is_asked_for_and_read() {
    let binance = named("Binance", "perpetual", "ABC", 1.0, 1.0, 0.0);
    assert_eq!(quote_url(&binance).unwrap(), "https://fapi.binance.com/fapi/v1/ticker/bookTicker?symbol=ABCUSDT");
    let spot = named("Bybit", "spot", "ABC", 1.0, 1.0, 0.0);
    assert_eq!(quote_url(&spot).unwrap(), "https://api.bybit.com/v5/market/tickers?category=spot&symbol=ABCUSDT");
    assert_eq!(fault(quote_url(&named("Kraken", "spot", "ABC", 1.0, 1.0, 0.0))), "unsupported executable quote route");
    let answer = read(r#"{"bidPrice": "2", "askPrice": "3", "bidQty": "4"}"#);
    let leg = MarketService::refresh_leg_quote(&binance, &answer).unwrap();
    assert_eq!((f(leg.bid), f(leg.ask), f(leg.bid_quantity), f(leg.ask_quantity)), (2.0, 3.0, 4.0, 0.0));
    assert_eq!(fault(MarketService::refresh_leg_quote(&binance, &read(r#"{"askPrice": "3"}"#))), "executable bid quote is unavailable");
    assert_eq!(fault(MarketService::refresh_leg_quote(&binance, &read(r#"{"bidPrice": "3"}"#))), "executable ask quote is unavailable");
    assert_eq!(fault(MarketService::refresh_leg_quote(&spot, &read(r#"{"result": {"list": []}}"#))), "Bybit executable quote is unavailable");
}

#[test]
fn streams_of_quotes_have_addresses() {
    let stream = quote_stream(&named("Binance", "perpetual", "ABC", 1.0, 1.0, 0.0)).unwrap();
    assert_eq!((stream.url.as_str(), stream.subscription.is_none()), ("wss://fstream.binance.com/ws/abcusdt@bookTicker", true));
    let stream = quote_stream(&named("Bybit", "spot", "ABC", 1.0, 1.0, 0.0)).unwrap();
    assert_eq!(stream.url, "wss://stream.bybit.com/v5/public/spot");
    assert_eq!(render(&stream.subscription.unwrap()), r#"{"args":["orderbook.1.ABCUSDT"],"op":"subscribe"}"#);
    assert_eq!(fault(quote_stream(&named("Kraken", "spot", "ABC", 1.0, 1.0, 0.0))), "unsupported websocket quote route");
}

#[test]
fn listed_tokens_are_tagged() {
    let listed = CmcResponse {
        data: vec![CmcToken { symbol: "straße".to_string(), name: "Straße".to_string(), cmc_rank: 7 }],
    };
    let tokens = top_tokens(&listed);
    assert_eq!((tokens[0].symbol.as_str(), tokens[0].name.as_str(), tokens[0].rank), ("STRASSE", "Straße", Some(7)));
    assert_eq!(tokens[0].tags, vec!["cmc200"]);
}

fn markets() -> Markets {
    Markets {
        binance: vec![
            named("Binance", "perpetual", "ABC", 10.0, 10.01, -0.002),
            named("Binance", "perpetual", "DEF", 10.0, 10.01, 0.0),
            named("Binance", "perpetual", "GHI", 10.0, 10.01, 0.004),
        ],
        bybit: vec![
            named("Bybit", "perpetual", "ABC", 10.2, 10.21, 0.002),
            named("Bybit", "perpetual", "JKL", 10.0, 10.01, 0.0),
        ],
        binance_spot: vec![named("Binance", "spot", "GHI", 10.0, 10.01, 0.0)],
        bybit_spot: vec![],
        tokens: vec![Token { symbol: "ABC".to_string(), name: "Abc".to_string(), rank: Some(3), tags: vec!["cmc200".to_string()] }],
    }
}

#[test]
fn a_scan_finds_the_routes_between_the_markets() {
    let mut markets = markets();
    for leg in markets.binance.iter_mut().chain(markets.bybit.iter_mut()) {
        leg.next_funding_time = HOUR;
    }
    let found = scan(&markets, 0);
    assert_eq!((found.matched, found.universe), (1, 4));
    let routes: Vec<(&str, &str)> =
        found.opportunities.iter().map(|offer| (offer.token.symbol.as_str(), offer.route_type.as_str())).collect();
    assert!(routes.iter().any(|(token, kind)| *token == "ABC" && *kind == "cross_perpetual"));
    assert!(routes.iter().any(|(token, kind)| *token == "GHI" && *kind != "cross_perpetual"));
    assert_eq!(found.spread_opportunities.len(), 1);
    assert_eq!(found.spread_opportunities[0].long.exchange, "Binance");
    let cross = found.opportunities.iter().find(|offer| offer.token.symbol == "ABC").unwrap();
    assert_eq!((cross.long.exchange.as_str(), cross.short.exchange.as_str()), ("Binance", "Bybit"));
    assert!(cross.token.tags.contains(&"cmc200".to_string()));
}

#[test]
fn the_last_of_two_markets_of_a_base_counts() {
    let legs = vec![named("Binance", "perpetual", "ABC", 1.0, 1.0, 0.0), named("Binance", "perpetual", "ABC", 2.0, 2.0, 0.0)];
    assert_eq!(find_last(&legs, "ABC"), Some(1));
    assert_eq!(find_last(&legs, "XYZ"), None);
}

fn paying(id: &str, funding: f64, kind: &str) -> Opportunity {
    let mut offer = offer();
    offer.id = id.to_string();
    offer.funding_per_hour = d(funding);
    offer.apy = d(funding * 8760.0);
    offer.route_type = kind.to_string();
    offer
}

#[test]
fn borrowing_is_taken_off_what_a_route_earns() {
    let offers = vec![
        paying("a", 0.001, "cross_perpetual"),
        paying("b", 0.001, "spot_short"),
        paying("c", 0.001, "spot_short"),
        paying("d", 0.001, "spot_short"),
    ];
    let costs = vec![BorrowCost::Unknown, BorrowCost::Rate(d(0.0004)), BorrowCost::Rate(d(0.002)), BorrowCost::Unavailable];
    let (cross, spot) = apply_borrow_costs(&offers, &costs);
    assert_eq!((cross.len(), cross[0].id.as_str()), (1, "a"));
    assert_eq!((spot.len(), spot[0].id.as_str()), (1, "b"));
    assert!((f(spot[0].funding_per_hour) - 0.0006).abs() < 1e-12);
    assert_eq!(f(spot[0].borrow_interest_per_hour), 0.0004);
    assert!((f(spot[0].apy) - 0.0006 * 8760.0).abs() < 1e-9);
}

#[test]
fn offers_are_ranked_from_the_best() {
    let offers = vec![
        paying("a", 0.001, "cross_perpetual"),
        paying("b", 0.003, "cross_perpetual"),
        paying("c", 0.0, "cross_perpetual"),
        paying("d", 0.003, "cross_perpetual"),
    ];
    let ids = |list: Vec<Opportunity>| list.into_iter().map(|offer| offer.id).collect::<Vec<_>>();
    assert_eq!(ids(rank(&offers, Ranking::Yield, 10)), vec!["b", "d", "a", "c"]);
    assert_eq!(ids(rank(&offers, Ranking::PayingYield, 10)), vec!["b", "d", "a"]);
    assert_eq!(ids(rank(&offers, Ranking::Yield, 1)), vec!["b"]);
    let mut gaps = offers.clone();
    gaps[0].spread_vs_average = d(0.006);
    gaps[1].spread_vs_average = d(0.004);
    gaps[2].spread_vs_average = d(0.02);
    gaps[3].spread_vs_average = d(0.005);
    assert_eq!(ids(rank(&gaps, Ranking::Gap, 10)), vec!["c", "a"]);
}

/// A search that finds the same answer for whatever it asks.
fn searched(markets: &Markets, cost: BorrowCost, coin: bool, average: Option<f64>) -> ScanRun {
    let mut run = ScanRun::new(markets, 0);
    loop {
        match run.next() {
            ScanAction::FindCosts { asks } => {
                let costs: Vec<BorrowCost> = asks
                    .iter()
                    .map(|ask| if ask.is_some() { cost } else { BorrowCost::Unknown })
                    .collect();
                run.on_costs(&costs);
            }
            ScanAction::FindAverages => {
                let averages = run.cross.iter().map(|offer| Some((offer.long.rate, offer.short.rate))).collect();
                run.on_averages(&averages, 0);
            }
            ScanAction::AskCoin { .. } => run.on_coin(coin),
            ScanAction::FindCrossGaps => run.on_cross_gaps(&vec![]),
            ScanAction::FindSpotGaps => run.on_spot_gaps(&vec![]),
            ScanAction::FindWideGaps => run.on_wide_gaps(&vec![average.map(d); run.gaps.len()]),
            ScanAction::Finish => return run,
        }
    }
}

#[test]
fn a_search_offers_the_best_of_either_kind() {
    let mut wide = Markets { binance: vec![], bybit: vec![], binance_spot: vec![], bybit_spot: vec![], tokens: vec![] };
    for i in 0..14 {
        let base = format!("T{i:02}");
        let rate = 0.0001 * (i + 1) as f64;
        wide.binance.push(named("Binance", "perpetual", &base, 10.0, 10.01, -rate));
        wide.bybit.push(named("Bybit", "perpetual", &base, 10.2, 10.21, rate));
        wide.binance_spot.push(named("Binance", "spot", &base, 10.0, 10.01, 0.0));
    }
    for leg in wide.binance.iter_mut().chain(wide.bybit.iter_mut()) {
        leg.next_funding_time = HOUR;
    }
    let response = MarketService::opportunities(searched(&wide, BorrowCost::Rate(d(0.0)), true, Some(0.001)), 77);
    assert_eq!((response.matched_pairs, response.universe_size, response.updated_at), (14, 14, 77));
    for (list, cross) in [(&response.opportunities, true), (&response.spot_opportunities, false)] {
        assert_eq!(list.len(), OFFERS_KEPT);
        assert!(list.iter().all(|offer| f(offer.funding_per_hour) > 0.0));
        assert!(list.iter().all(|offer| (offer.route_type == "cross_perpetual") == cross));
        assert!(list.windows(2).all(|pair| f(pair[0].apy) >= f(pair[1].apy)));
        assert_eq!(list[0].token.symbol, "T13");
    }
    assert_eq!(response.opportunities[0].id, "T13-Binance-Bybit");
    assert_eq!(response.spot_opportunities[0].id, "T13-Binance-perpetual-Binance-spot");
    assert_eq!(response.spread_opportunities.len(), 14);
    assert!(response.spread_opportunities.iter().all(|offer| f(offer.spread) > 0.005 && f(offer.spread_vs_average) > 0.005));
    assert_eq!((f(response.assumptions.binance_taker_fee), f(response.assumptions.bybit_taker_fee)), (0.0005, 0.00055));
    let none = MarketService::opportunities(searched(&wide, BorrowCost::Rate(d(0.0)), false, None), 1);
    assert!(none.spot_opportunities.is_empty() && none.spread_opportunities.is_empty());
    let dear = MarketService::opportunities(searched(&wide, BorrowCost::Unavailable, true, None), 1);
    assert!(dear.spot_opportunities.is_empty() && dear.opportunities.len() == OFFERS_KEPT);
}

#[test]
fn a_search_needs_the_contracts_of_both_exchanges() {
    let gathered = Markets::gather(Ok((markets().binance, markets().bybit)), None, Some(vec![]), None).unwrap();
    assert_eq!((gathered.binance.len(), gathered.bybit.len(), gathered.binance_spot.len(), gathered.tokens.len()), (3, 2, 0, 0));
    assert!(Markets::gather(Err(Failure::new(Reason::BybitQuote)), None, None, None).is_err());
}

#[test]
fn coins_that_cannot_be_borrowed_are_passed_over() {
    let mut candidates = vec![];
    for i in 0..14 {
        let mut offer = paying(&format!("o{i}"), 0.001, "spot");
        if i % 2 == 0 {
            offer.short = named("Binance", "spot", &format!("B{i}"), 10.0, 10.1, 0.0);
        }
        candidates.push(offer);
    }
    let mut pick = SpotPick::new(candidates);
    let mut asked = vec![];
    while let PickStep::Ask(asset) = pick.advance() {
        pick.on_answer(asset != "B2");
        asked.push(asset);
    }
    assert_eq!(pick.picked.len(), OFFERS_KEPT);
    assert_eq!(asked, vec!["B0", "B2", "B4", "B6", "B8", "B10"]);
    assert!(pick.picked.iter().all(|offer| offer.id != "o2"));
    assert_eq!(pick.picked[0].id, "o0");
}

#[test]
fn a_route_is_valued_by_its_average_gap() {
    let mut offer = paying("a", 0.001, "cross_perpetual");
    offer.spread = d(0.01);
    offer.fees = d(0.002);
    let valued = apply_averages(&vec![offer.clone(), offer], &vec![Some(d(0.004)), None]);
    assert_eq!(f(valued[0].average_spread_24h), 0.004);
    assert!((f(valued[0].spread_vs_average) - 0.006).abs() < 1e-12);
    assert_eq!(f(valued[0].break_even_hours), 0.0);
    assert_eq!(f(valued[1].average_spread_24h), 0.0);
}

#[test]
fn projections_need_the_averages_of_both_legs() {
    let mut offer = paying("a", 0.001, "cross_perpetual");
    for leg in [&mut offer.long, &mut offer.short] {
        leg.interval_hours = d(1.0);
        leg.next_funding_time = HOUR;
    }
    offer.long.rate = d(-0.001);
    offer.short.rate = d(0.001);
    let projected = apply_projections(&vec![offer.clone(), offer], &vec![Some((d(0.0), d(0.0))), None], 0);
    assert_eq!((f(projected[0].funding_per_hour), projected[0].apy_horizon_hours), (0.002, 1));
    assert_eq!(f(projected[0].apy), 0.002 * 8760.0);
    assert_eq!((f(projected[1].funding_per_hour), f(projected[1].apy)), (0.0, 0.0));
}

#[test]
fn a_held_route_is_valued() {
    let mut service = MarketService::new();
    let position = held(
        held_leg("Binance", "perpetual", "long", 10.0, 10.0),
        held_leg("Bybit", "perpetual", "short", 10.0, 10.0),
        100.0,
    );
    assert_eq!(fault(service.held_legs(&position)), "long-leg market data is unavailable");
    let mut partial = markets();
    partial.bybit.clear();
    service.remember(&partial);
    assert_eq!(fault(service.position_history(&position)), "short-leg market data is unavailable");
    service.remember(&markets());
    let (long, short) = service.held_legs(&position).unwrap();
    assert_eq!((f(long.ask), f(short.bid)), (10.01, 10.2));
    assert_eq!(MarketService::route_need(&long, &short).unwrap(), RouteNeed::Averages);
    let coin = named("Binance", "spot", "ABC", 10.0, 10.1, 0.0);
    assert_eq!(MarketService::route_need(&long, &coin).unwrap(), RouteNeed::BorrowRate);
    assert_eq!(MarketService::route_need(&coin, &short).unwrap(), RouteNeed::Nothing);
    assert_eq!(fault(MarketService::route_need(&coin, &coin)), "unsupported held-route market combination");
    let metrics = MarketService::position_market_metrics(&long, &coin, RouteFacts::BorrowRate(d(0.0001)), 0).unwrap();
    assert_eq!(f(metrics.funding_per_hour), 0.002 / 8.0 - 0.0001);
    assert_eq!(f(metrics.apy), f(metrics.funding_per_hour) * 8760.0);
    assert_eq!(f(metrics.spread), (10.0 - 10.01) / 10.01);
    let mut dark = long.clone();
    dark.ask = d(0.0);
    assert_eq!(
        fault(MarketService::position_market_metrics(&dark, &coin, RouteFacts::BorrowRate(d(0.0)), 0)),
        "long-leg ask price is unavailable"
    );
}

#[test]
fn fresh_quotes_give_a_fresh_spread() {
    let long = named("Binance", "perpetual", "ABC", 9.0, 10.0, 0.0);
    let short = named("Bybit", "perpetual", "ABC", 10.5, 10.6, 0.0);
    let refreshed = MarketService::refresh_opportunity_quotes(&offer(), long.clone(), short.clone()).unwrap();
    assert_eq!(f(refreshed.spread), 0.05);
    let mut dark = short;
    dark.bid = d(0.0);
    assert_eq!(
        fault(MarketService::refresh_opportunity_quotes(&offer(), long, dark)),
        "executable bid/ask quote is unavailable"
    );
}

#[test]
fn rates_for_borrowing_are_per_hour() {
    assert_eq!(f(binance_borrow_rate(&read(r#"[{"dailyInterestRate": "0.0024"}]"#), "ABC").unwrap()), 0.0024 / 24.0);
    assert_eq!(fault(binance_borrow_rate(&read("[]"), "ABC")), "Binance returned no borrow rate for ABC");
    let fine = read(r#"{"retCode": 0, "result": {"list": [{"hourlyBorrowRate": "0.0001"}]}}"#);
    assert_eq!(f(bybit_borrow_rate(&fine, "ABC").unwrap()), 0.0001);
    assert_eq!(
        fault(bybit_borrow_rate(&read(r#"{"retCode": 0, "result": {"list": []}}"#), "ABC")),
        "Bybit returned no borrow rate for ABC"
    );
    assert_eq!(
        fault(bybit_borrow_rate(&read(r#"{"retCode": 1, "retMsg": "no"}"#), "ABC")),
        "Bybit borrow-rate request rejected: no"
    );
    assert!(binance_borrow_available(Some(&read(r#"{"amount": "0.5"}"#))));
    assert!(!binance_borrow_available(Some(&read(r#"{"amount": "0"}"#))));
    assert!(!binance_borrow_available(None));
}

fn keyed() -> Config {
    let settings = [("BINANCE_API_KEY", "public"), ("BINANCE_API_SECRET", "secret"), ("BYBIT_API_KEY", "public"), ("BYBIT_API_SECRET", "secret")]
        .iter()
        .map(|(name, value)| Setting { name: name.to_string(), value: value.to_string(), number: None })
        .collect();
    Config::from_env(&settings).unwrap()
}

#[test]
fn requests_about_borrowing_are_signed() {
    let config = keyed();
    let signature = "391d89c34a808f6cc1cfabd99e8aad92ee4e2684e0e6d11f78e2cd1e9b93a944";
    let BorrowRequest::Binance(url) = borrow_rate_request(&config, "Binance", "BTC", 5).unwrap() else { panic!() };
    assert_eq!(
        url,
        format!("https://api.binance.com/sapi/v1/margin/interestRateHistory?asset=BTC&timestamp=5&recvWindow=10000&signature={signature}")
    );
    let BorrowRequest::Bybit(path, signed) = borrow_rate_request(&config, "Bybit", "BTC", 5).unwrap() else { panic!() };
    assert_eq!(path, "/v5/spot-margin-trade/interest-rate-history?currency=BTC");
    assert_eq!(signed, "d47d3590f5aad2f26fd4069beebf68d9437f360136a7f93e86c92690f1a9a84c");
    assert_eq!(fault(borrow_rate_request(&config, "Kraken", "BTC", 5)), "unsupported spot borrow-rate exchange");
    assert_eq!(
        borrow_available_url(&config, "BTC", 5).unwrap(),
        format!("https://api.binance.com/sapi/v1/margin/maxBorrowable?asset=BTC&timestamp=5&recvWindow=10000&signature={signature}")
    );
    let bare = Config::from_env(&vec![]).unwrap();
    assert_eq!(fault(borrow_available_url(&bare, "BTC", 5)), "Binance credentials missing");
    assert_eq!(fault(borrow_rate_request(&bare, "Bybit", "BTC", 5)), "Bybit credentials missing");
}

#[test]
fn the_history_of_an_offer_is_that_of_its_legs() {
    let response = OpportunitiesResponse {
        opportunities: vec![],
        spot_opportunities: vec![offer()],
        spread_opportunities: vec![],
        updated_at: 0,
        universe_size: 0,
        matched_pairs: 0,
        assumptions: FeeAssumptions { binance_taker_fee: d(0.0005), bybit_taker_fee: d(0.00055) },
    };
    let (long, short) = MarketService::opportunity_history(&response, "ABC-offer").unwrap();
    assert_eq!((long.exchange.as_str(), short.exchange.as_str()), ("Binance", "Bybit"));
    assert_eq!(fault(MarketService::opportunity_history(&response, "x")), "opportunity is no longer available");
    let legs = MarketService::trading_legs(vec![long.clone()], vec![short], vec![long]);
    assert_eq!(legs.iter().map(|leg| leg.exchange.as_str()).collect::<Vec<_>>(), vec!["Binance", "Bybit", "Binance"]);
}

#[test]
fn symbols_have_a_shape() {
    assert_eq!(check_symbol(" abcusdt ").unwrap(), "ABCUSDT");
    assert_eq!(fault(check_symbol("ABCUSD")), "symbol must be an alphanumeric USDT perpetual symbol");
    assert_eq!(fault(check_symbol("A-BUSDT")), "symbol must be an alphanumeric USDT perpetual symbol");
}

#[test]
fn histories_have_addresses() {
    let spot = named("Binance", "spot", "ABC", 1.0, 1.0, 0.0);
    assert_eq!(candle_url(&spot).unwrap(), "https://api.binance.com/api/v3/klines?symbol=ABCUSDT&interval=1h&limit=25");
    assert_eq!(funding_url(&spot, 0).unwrap(), None);
    let bybit = named("Bybit", "perpetual", "ABC", 1.0, 1.0, 0.0);
    assert_eq!(
        funding_url(&bybit, 172_800_005).unwrap().unwrap(),
        "https://api.bybit.com/v5/market/funding/history?category=linear&symbol=ABCUSDT&startTime=5&endTime=172800005&limit=200"
    );
    let other = named("Kraken", "perpetual", "ABC", 1.0, 1.0, 0.0);
    assert_eq!(fault(candle_url(&other)), "unsupported market history route");
    assert_eq!(fault(funding_url(&other, 0)), "unsupported funding-history exchange");
    let urls = symbol_urls("ABCUSDT", 172_800_005);
    assert_eq!(urls.binance_candles, "https://fapi.binance.com/fapi/v1/klines?symbol=ABCUSDT&interval=1h&limit=25");
    assert_eq!(urls.bybit_candles, candle_url(&bybit).unwrap());
    assert_eq!(urls.bybit_rates, funding_url(&bybit, 172_800_005).unwrap().unwrap());
    assert_eq!(urls.binance_rates, "https://fapi.binance.com/fapi/v1/fundingRate?symbol=ABCUSDT&startTime=5&limit=1000");
}

#[test]
fn a_chart_shows_the_last_day_of_hours_that_both_have() {
    let closes: Vec<(i64, Double)> = (0..30).rev().map(|hour| (hour * HOUR, d(100.0))).collect();
    let dearer: Vec<(i64, Double)> = (0..29).map(|hour| (hour * HOUR, d(101.0))).collect();
    let rates = vec![(0, d(0.0001)), (10 * HOUR, d(0.0002))];
    let chart = history_for_legs("x".to_string(), &closes, &dearer, &rates, &vec![], 27 * HOUR + 5);
    assert_eq!((chart.opportunity_id.as_str(), chart.points.len()), ("x", HISTORY_HOURS));
    assert_eq!((chart.points[0].timestamp, chart.points[23].timestamp), (4 * HOUR, 27 * HOUR));
    assert_eq!(f(chart.points[0].directional_spread_percent), 1.0);
    assert_eq!(chart.points[0].long_funding_rate.map(f), Some(0.0001));
    assert_eq!(chart.points[6].long_funding_rate.map(f), Some(0.0002));
    assert_eq!(chart.points[0].short_funding_rate, None);
    let gaps = hourly_gaps(&closes, &dearer, 27 * HOUR + 5).unwrap();
    assert_eq!((gaps.len(), gaps[23].0), (24, 26 * HOUR));
    assert_eq!(f(gaps[0].1), 0.01);
    assert_eq!(fault(hourly_gaps(&closes, &vec![], 27 * HOUR)), "no aligned Binance/Bybit hourly candles");
}

#[test]
fn the_gap_of_a_symbol_is_charted() {
    let binance = read(r#"[[0, "", "", "", "100"], [3600000, "", "", "", "200"]]"#);
    let bybit = read(r#"{"result": {"list": [["3600000", "", "", "", "202"], ["0", "", "", "", "99"]]}}"#);
    let rates = read(r#"[{"fundingTime": 0, "fundingRate": "0.0001"}]"#);
    let chart = MarketService::spread_history("ABCUSDT".to_string(), &binance, &bybit, &rates, &Json::Null, HOUR);
    assert_eq!((chart.symbol.as_str(), chart.points.len()), ("ABCUSDT", 2));
    assert_eq!((chart.points[0].timestamp, f(chart.points[0].binance_close), f(chart.points[0].bybit_close)), (0, 100.0, 99.0));
    assert_eq!(chart.points[1].binance_funding_rate.map(f), Some(0.0001));
    assert_eq!(chart.points[1].bybit_funding_rate, None);
}

#[test]
fn closes_and_rates_are_read() {
    let binance = named("Binance", "perpetual", "ABC", 1.0, 1.0, 0.0);
    let bybit = named("Bybit", "perpetual", "ABC", 1.0, 1.0, 0.0);
    let closes = hourly_closes(&binance, &read(r#"[[5, 0, 0, 0, "1.5"], ["6", 0, 0, 0, 2], [7]]"#));
    assert_eq!(closes.len(), 2);
    let rates = funding_history(&bybit, &read(r#"{"result": {"list": [
        {"fundingRateTimestamp": "9", "fundingRate": "0.2"}, {"fundingRateTimestamp": "3", "fundingRate": "0.1"}]}}"#));
    assert_eq!(rates.iter().map(|(at, rate)| (*at, f(*rate))).collect::<Vec<_>>(), vec![(3, 0.1), (9, 0.2)]);
    let rates = funding_history(&binance, &read(r#"[{"fundingTime": 9, "fundingRate": "0.2"}, {"fundingTime": "8", "fundingRate": "0.3"}]"#));
    assert_eq!(rates.len(), 1);
    let day = 86_400_000;
    let recent = recent_rates(&vec![(0, d(0.1)), (5, d(0.2)), (day + 5, d(0.3)), (day + 6, d(0.4))], day + 5);
    assert_eq!(recent.iter().map(|(at, _)| *at).collect::<Vec<_>>(), vec![5, day + 5]);
    assert_eq!(latest_rate_at(&vec![(1, d(0.1)), (5, d(0.2))], 4).map(f), Some(0.1));
    assert_eq!(latest_rate_at(&vec![(1, d(0.1))], 0), None);
}

#[test]
fn averages_weigh_what_is_recent() {
    let points = vec![(0, d(1.0)), (6 * HOUR, d(4.0))];
    let exponents = weight_exponents(&points, d(6.0)).unwrap();
    let weights: Vec<Double> = exponents.iter().map(|x| d(2f64.powf(f(*x)))).collect();
    assert_eq!(f(spread_average(&points, &weights).unwrap()), 3.0);
    let leg = named("Binance", "perpetual", "ABC", 1.0, 1.0, 0.5);
    assert_eq!(f(weighted_funding_average(&leg, &points, &weights)), 3.0);
    assert_eq!(f(weighted_funding_average(&leg, &vec![], &vec![])), 0.5);
    assert!(weight_exponents(&vec![], d(6.0)).is_none());
    assert_eq!(fault(spread_average(&vec![], &vec![])), "weighted spread average is unavailable");
    assert_eq!(host("https://api.bybit.com/v5/x"), "api.bybit.com");
}

#[test]
fn positions_and_balances_are_read() {
    let legs = binance_positions(&read(r#"[
        {"symbol": "ABCUSDT", "positionAmt": "-2.5", "entryPrice": "10", "markPrice": "9", "unRealizedProfit": "2.5", "leverage": "300"},
        {"symbol": "DEFUSDT", "positionAmt": "0", "entryPrice": "10", "markPrice": "9"},
        {"symbol": "GHIUSDT", "positionAmt": "1", "entryPrice": "10"}
    ]"#));
    assert_eq!(legs.len(), 1);
    assert_eq!((legs[0].side.as_str(), f(legs[0].quantity), legs[0].leverage, f(legs[0].unrealized_pnl)), ("short", 2.5, 255, 2.5));
    let legs = bybit_positions(&read(r#"{"result": {"list": [
        {"symbol": "ABCUSDT", "side": "Buy", "size": "3", "avgPrice": "10", "markPrice": "9", "leverage": "5"},
        {"symbol": "DEFUSDT", "side": "Sell", "size": "0", "avgPrice": "10", "markPrice": "9"}]}}"#));
    assert_eq!((legs.len(), legs[0].side.as_str(), legs[0].leverage), (1, "long", 5));
    let balance = binance_balance(&read(r#"{"totalWalletBalance": "10", "availableBalance": "4", "totalUnrealizedProfit": "-1"}"#));
    assert_eq!((f(balance.equity), f(balance.available), f(balance.unrealized_pnl)), (10.0, 4.0, -1.0));
    let balance = bybit_balance(&read(r#"{"result": {"list": [{"totalEquity": "7", "totalAvailableBalance": "3"}]}}"#)).unwrap();
    assert_eq!((f(balance.equity), f(balance.available), f(balance.unrealized_pnl)), (7.0, 3.0, 0.0));
    assert_eq!(fault(bybit_balance(&read(r#"{"result": {"list": []}}"#))), "Bybit wallet missing");
    assert_eq!(f(max_borrowable(&read(r#"{"amount": "1.5"}"#), "ABC").unwrap()), 1.5);
    assert_eq!(fault(max_borrowable(&read("{}"), "ABC")), "Binance returned no maxBorrowable amount for ABC");
}

#[test]
fn a_debt_is_a_short_leg() {
    let account = read(r#"{"userAssets": [{"asset": "ABC", "borrowed": "2", "interest": "0.5"}]}"#);
    let leg = named("Binance", "spot", "ABC", 10.0, 12.0, 0.0);
    let debt = margin_debt(&account, &leg).unwrap().unwrap();
    assert_eq!((f(debt.total), f(debt.interest)), (2.5, 0.5));
    let short = binance_margin_short_position(&leg, debt, Some(d(11.0)));
    assert_eq!((short.market.as_str(), short.side.as_str(), f(short.quantity)), ("spot", "short", 2.5));
    assert_eq!((f(short.unrealized_pnl), f(short.funding_earned)), (2.5, -5.0));
    let mut coarse = leg.clone();
    coarse.qty_step = d(5.0);
    assert!(margin_debt(&account, &coarse).unwrap().is_none());
    let other = named("Binance", "spot", "XYZ", 10.0, 12.0, 0.0);
    assert_eq!(fault(margin_debt(&account, &other)), "Binance margin asset XYZ is unavailable");
    let books = read(r#"[{"symbol": "ABCUSDT", "bidPrice": "10", "askPrice": "12"}]"#);
    let owed = owed_symbols(&account, &books, &vec!["XYZUSDT".to_string(), "ABCUSDT".to_string()]);
    assert_eq!((owed.len(), owed[0].symbol.as_str(), f(owed[0].mark_price)), (1, "ABCUSDT", 11.0));
    assert_eq!(f(owed_leg(&owed[0], None).entry_price), 11.0);
}

#[test]
fn a_leg_is_looked_for_where_it_is_held() {
    let source = |exchange: &str, market: &str, side: &str| leg_source(&named(exchange, market, "ABC", 1.0, 1.0, 0.0), side);
    assert_eq!(source("Binance", "spot", "short").unwrap(), LegSource::Margin);
    assert_eq!(source("Binance", "spot", "long").unwrap(), LegSource::Nowhere);
    assert_eq!(source("Binance", "perpetual", "long").unwrap(), LegSource::Binance);
    assert_eq!(source("Bybit", "perpetual", "short").unwrap(), LegSource::Bybit);
    assert_eq!(fault(source("Kraken", "perpetual", "short")), "unsupported exchange Kraken");
    let legs = vec![held_leg("Binance", "perpetual", "short", 1.0, 10.0), held_leg("Binance", "perpetual", "long", 2.0, 10.0)];
    assert_eq!(find_sided(&legs, "ABCUSDT", "long").map(|leg| f(leg.quantity)), Some(2.0));
    assert!(find_sided(&legs, "XYZUSDT", "long").is_none());
}

#[test]
fn a_statement_is_read_page_by_page() {
    let mut statement = BybitStatement::new(604_800_005);
    assert_eq!(
        statement.path(),
        "/v5/account/transaction-log?accountType=UNIFIED&category=linear&currency=USDT&startTime=5&endTime=604800005&limit=50"
    );
    let page = read(r#"{"retCode": 0, "result": {"nextPageCursor": "c1", "list": [
        {"symbol": "ABCUSDT", "cashFlow": "3", "funding": "0.5", "fee": "0.1"},
        {"symbol": "ABCUSDT", "cashFlow": "-1", "fee": "0.2"}]}}"#);
    assert!(statement.on_page(&page).unwrap());
    assert!(statement.path().ends_with("&limit=50&cursor=c1"));
    let last = read(r#"{"retCode": 0, "result": {"nextPageCursor": "", "list": []}}"#);
    assert!(!statement.on_page(&last).unwrap());
    let summary = statement.summary;
    assert_eq!((f(summary.closed_position_pnl), f(summary.funding_income)), (2.0, 0.5));
    assert!((f(summary.trading_fees) - 0.3).abs() < 1e-12);
    let mut refused = BybitStatement::new(604_800_005);
    assert_eq!(
        fault(refused.on_page(&read(r#"{"retCode": 5, "retMsg": "no"}"#))),
        "Bybit transaction log rejected: \"no\""
    );
    let mut long = BybitStatement::new(604_800_005);
    let mut pages = 0;
    while long.on_page(&page).unwrap() {
        pages += 1;
    }
    assert_eq!((pages, long.pages), (19, 20));
    assert_eq!(
        binance_income_query("COMMISSION", 604_800_005),
        "incomeType=COMMISSION&startTime=5&endTime=604800005&limit=1000&timestamp=604800005"
    );
    let summary = IncomeSummary::of_binance(
        &read(r#"[{"symbol": "ABCUSDT", "income": "2"}]"#),
        &read(r#"[{"symbol": "ABCUSDT", "income": "-0.5"}]"#),
        &read(r#"[{"symbol": "ABCUSDT", "income": "4"}]"#),
    );
    assert_eq!((f(summary.trading_fees), f(summary.realized_pnl())), (0.5, 5.5));
}
