use arbiview::models::{
    AccountSummary, AutoCloseRule, ExchangeBalance, FeeAssumptions, HedgeProtectionEvent,
    HedgeProtectionStatus, Leg, OpportunitiesResponse, Opportunity, OrderExecution, Position,
    PositionLeg, Token, TradeResponse,
};
use arbiview::num::Double;
use arbiview::spread_strategy::SpreadStrategyService;
use arbiview::telegram::questions::{confirm_auto_close, interval_or_usual, order_or_usual};
use arbiview::telegram::replies::Reply;
use arbiview::telegram::shows::{
    send_help, show_account, show_auto_close_rules, show_opportunities, show_opportunity, show_position,
    show_protection, show_spread_strategy, tell_closed, tell_error, tell_leverage, tell_opened,
    tell_reduced, tell_rule_cancelled, tell_rule_set,
};
use arbiview::telegram::text::{break_even, position_market_metrics};
use arbiview::telegram::updates::{message_words, payload_parts};
use arbiview::telegram::words::Amount;

fn d(x: f64) -> Double {
    Double::from_bits(x.to_bits())
}

fn f(x: Double) -> f64 {
    f64::from_bits(x.bits)
}

fn market_leg(exchange: &str, market: &str, bid: f64, ask: f64) -> Leg {
    Leg {
        exchange: exchange.to_string(),
        market: market.to_string(),
        base: "ABC".to_string(),
        symbol: "ABCUSDT".to_string(),
        bid: d(bid),
        ask: d(ask),
        bid_quantity: d(100.0),
        ask_quantity: d(100.0),
        mark: d(bid),
        rate: d(0.0),
        interval_hours: d(8.0),
        next_funding_time: 0,
        qty_step: d(0.1),
        tags: vec![],
        volume_24h_usdt: d(0.0),
    }
}

fn held_leg(exchange: &str, market: &str, side: &str, quantity: f64, price: f64) -> PositionLeg {
    PositionLeg {
        exchange: exchange.to_string(),
        market: market.to_string(),
        symbol: "ABCUSDT".to_string(),
        side: side.to_string(),
        quantity: d(quantity),
        entry_price: d(price),
        mark_price: d(price),
        unrealized_pnl: d(0.0),
        funding_earned: d(0.0),
        funding_rate: d(0.0),
        leverage: 5,
    }
}

fn held(long: PositionLeg, short: PositionLeg, notional: f64) -> Position {
    Position {
        id: "live-ABC".to_string(),
        token: "ABC".to_string(),
        status: "open".to_string(),
        opened_at: 0,
        notional_usdt: d(notional),
        leverage: 5,
        long,
        short,
        funding_earned: d(0.0),
        unrealized_pnl: d(0.0),
        current_pnl_usdt: d(0.0),
        current_roi: d(0.0),
        roi_basis_usdt: d(0.0),
        current_funding_per_hour: None,
        current_spread: None,
        current_apy: None,
    }
}

fn offer() -> Opportunity {
    Opportunity {
        id: "ABC-offer".to_string(),
        token: Token { symbol: "ABC".to_string(), name: "Abc".to_string(), rank: None, tags: vec![] },
        long: market_leg("Binance", "perpetual", 9.9, 10.0),
        short: market_leg("Bybit", "perpetual", 10.1, 10.2),
        funding_per_hour: d(0.0001),
        borrow_interest_per_hour: d(0.0),
        apy: d(0.8),
        apy_horizon_hours: 1,
        spread: d(0.01),
        average_spread_24h: d(0.0),
        spread_vs_average: d(0.01),
        fees: d(0.0021),
        break_even_hours: d(10.0),
        route_type: "cross_perpetual".to_string(),
        execution_supported: true,
    }
}

fn order(exchange: &str, status: &str, quantity: f64, price: f64) -> OrderExecution {
    OrderExecution {
        exchange: exchange.to_string(),
        client_order_id: "av1".to_string(),
        order_id: "1".to_string(),
        status: status.to_string(),
        executed_quantity: d(quantity),
        average_price: d(price),
    }
}

fn data(reply: &Reply) -> Vec<Vec<(String, String)>> {
    reply
        .keyboard
        .iter()
        .map(|row| row.iter().map(|b| (b.text.clone(), b.callback_data.clone())).collect())
        .collect()
}

fn keys(rows: &[&[(&str, &str)]]) -> Vec<Vec<(String, String)>> {
    rows.iter()
        .map(|row| row.iter().map(|(text, data)| (text.to_string(), data.to_string())).collect())
        .collect()
}

fn pair() -> Position {
    let mut position = held(
        held_leg("Binance", "perpetual", "long", 10.0, 10.0),
        held_leg("Bybit", "perpetual", "short", 10.0, 10.0),
        100.0,
    );
    position.current_pnl_usdt = d(1.25);
    position.current_roi = d(0.03125);
    position.roi_basis_usdt = d(40.0);
    position.unrealized_pnl = d(2.5);
    position.funding_earned = d(-0.75);
    position
}

fn snapshot() -> OpportunitiesResponse {
    let mut coin = offer();
    coin.long = market_leg("Binance", "spot", 9.9, 10.0);
    coin.short = market_leg("Binance", "perpetual", 10.1, 10.2);
    OpportunitiesResponse {
        opportunities: vec![offer()],
        spot_opportunities: vec![coin],
        spread_opportunities: vec![],
        updated_at: 0,
        universe_size: 1,
        matched_pairs: 1,
        assumptions: FeeAssumptions { binance_taker_fee: d(0.0005), bybit_taker_fee: d(0.00055) },
    }
}

#[test]
fn offers_are_listed_with_their_buttons() {
    let reply = show_opportunities(&snapshot(), "12:34:56");
    let expected = format!(
        "<b>当前资费套利机会</b>\n更新时间：12:34:56\n\n<b>跨所永续 TOP 10</b>\n1. <b>ABC</b> Binance→Bybit · APY {:+.1}%（1h）· 价差 {:+.3}% · 回本 {}\n\n<b>同所现货–永续 TOP 10</b>\n1. <b>ABC</b> Binance spot→Binance perpetual · APY {:+.1}% · 价差 {:+.3}% · 回本 {}\n",
        80.0, 1.0, break_even(d(10.0)), 80.0, 1.0, break_even(d(10.0))
    );
    assert_eq!(reply.text, expected);
    assert_eq!(
        data(&reply),
        keys(&[
            &[("ABC · +80.0%", "o|ABC|B|B")],
            &[("ABC Spot/Perp · +80.0%", "o|ABC|B|B")],
            &[("刷新", "opps"), ("持仓", "pos")],
        ])
    );
}

#[test]
fn an_offer_is_shown_with_its_costs() {
    let mut offer = offer();
    offer.borrow_interest_per_hour = d(0.00002);
    let reply = show_opportunity(&offer, "8", "8");
    assert!(reply.text.starts_with("<b>ABC/USDT</b>\n🟢 LONG Binance · "));
    assert!(reply.text.contains(&format!(" @ ${:.6} · 24h ", 10.0)));
    assert!(reply.text.contains("资金 APY：+80.00%（最佳平均收益需持有 1 小时）\n开仓价差：+1.000%\n"));
    assert!(reply.text.ends_with("资金净收益：+0.01000%/小时\nSpot 借币成本：-0.00200%/小时"));
    assert_eq!(
        data(&reply),
        keys(&[
            &[("开仓 $100 · 5×", "oc|ABC|B|B|100|5"), ("开仓 $500 · 5×", "oc|ABC|B|B|500|5")],
            &[("开仓 $1000 · 5×", "oc|ABC|B|B|1000|5"), ("刷新机会", "o|ABC|B|B")],
            &[("查看 24h 价差与资费", "oh|ABC|B|B")],
            &[("返回列表", "opps")],
        ])
    );
}

#[test]
fn a_position_is_shown_with_its_result() {
    let position = pair();
    let reply = show_position(&position, d(0.21));
    assert_eq!(
        reply.text,
        format!(
            "<b>ABC/USDT</b> · 每腿约 ${:.2} · 5×\n\n🟢 LONG Binance: {:.6} @ {:.6}\n🔴 SHORT Bybit: {:.6} @ {:.6}\n未实现盈亏：{:+.4} USDT\n累计 Funding：{:+.4} USDT\n预计往返手续费：-{:.4} USDT\n扣费盈亏：{:+.4} USDT\n当前 ROI：{:+.3}%（保证金基数 ${:.2}）\n{}",
            100.0, 10.0, 10.0, 10.0, 10.0, 2.5, -0.75, 0.21, 1.25, 3.125, 40.0, position_market_metrics(&position)
        )
    );
    assert_eq!(data(&reply)[0][0], ("加仓 $100".to_string(), "ac|live-ABC|100".to_string()));
}

#[test]
fn an_account_is_shown_by_exchange() {
    let balance = |name: &str, equity: f64| ExchangeBalance {
        exchange: name.to_string(),
        equity_usdt: d(equity),
        available_usdt: d(equity / 2.0),
        unrealized_pnl: d(0.0),
        realized_pnl: d(0.0),
        closed_position_pnl: d(0.0),
        funding_income: d(0.0),
        trading_fees: d(0.0),
    };
    let account = AccountSummary {
        mode: "live".to_string(),
        configured_exchanges: vec![],
        exchanges: vec![balance("Binance", 60.0), balance("Bybit", 40.0)],
        equity_usdt: d(100.0),
        available_usdt: d(50.0),
        unrealized_pnl: d(-1.5),
        realized_pnl: d(2.25),
        closed_position_pnl: d(0.0),
        funding_income: d(0.0),
        trading_fees: d(0.0),
        realized_period_days: 7,
        active_positions: 0,
        unhedged_legs: vec![],
    };
    let reply = show_account(&account);
    assert_eq!(
        reply.text,
        "<b>账户概览 · live</b>\n总权益 $100.00\n可用 $50.00\n未实现 -1.50\n已实现 +2.25\n\n<b>Binance</b>：可用 $30.00 / 权益 $60.00\n<b>Bybit</b>：可用 $20.00 / 权益 $40.00\n"
    );
    assert_eq!(data(&reply), keys(&[&[("刷新", "acct"), ("持仓", "pos")]]));
}

#[test]
fn protection_is_shown_with_its_last_events() {
    let event = |id: &str, status: &str, orders: usize| HedgeProtectionEvent {
        id: id.to_string(),
        token: id.to_string(),
        event_type: "orphan_exit".to_string(),
        status: status.to_string(),
        message: "a<b".to_string(),
        started_at: 0,
        updated_at: 0,
        initial_long_notional_usdt: Some(d(100.0)),
        initial_short_notional_usdt: None,
        final_long_notional_usdt: None,
        final_short_notional_usdt: Some(d(5.0)),
        orders: (0..orders).map(|_| order("Bybit", "Filled", 1.0, 1.0)).collect(),
    };
    let mut status = HedgeProtectionStatus {
        enabled: true,
        tolerance_percent: d(0.0),
        minimum_difference_usdt: d(0.0),
        order_notional_usdt: d(100.0),
        interval_seconds: d(2.0),
        protected_tokens: vec!["ABC".to_string(), "XYZ".to_string()],
        events: vec![event("E1", "completed", 2), event("E2", "completed", 0), event("E3", "failed", 0)],
    };
    let head = "<b>孤腿仓位保护</b>\n状态：运行中\n触发条件：仅当一条腿不存在时退出另一条腿\n双腿偏差：不自动调仓\n孤腿退出：每单 $100.00 / 2.0s\n保护标的：";
    assert_eq!(
        show_protection(&status).text,
        format!("{head}ABC、XYZ\n\n<b>E3</b>：LONG $100.00 → $100.00；SHORT $0.00 → $5.00 · 0 笔\n失败：a&lt;b\n\n<b>E1</b>：LONG $100.00 → $100.00；SHORT $0.00 → $5.00 · 2 笔")
    );
    status.events = (0..8).map(|i| event(&format!("N{i}"), "completed", 1)).collect();
    status.protected_tokens.clear();
    let text = show_protection(&status).text;
    assert!(text.starts_with(&format!("{head}等待识别\n\n<b>N7</b>")));
    assert!(text.contains("<b>N3</b>") && !text.contains("<b>N2</b>"));
}

#[test]
fn the_spread_strategy_is_shown() {
    assert_eq!(show_spread_strategy(None).text, "<b>价差回归策略</b>\n状态：等待价差偏离达到 1%");
    let mut offers = vec![offer()];
    offers[0].spread_vs_average = d(0.0125);
    let mut service = SpreadStrategyService::new(None, true);
    service.scan_entry(&offers, &vec![], 5);
    let mut trade = service.status().unwrap();
    trade.current_roi = Some(d(-0.005));
    trade.error = Some("x<y".to_string());
    assert_eq!(
        show_spread_strategy(Some(&trade)).text,
        "<b>价差回归策略 · ABC</b>\n状态：entering\n入场偏离：+1.250%\n入场价差：+1.000%\n当前 ROI：-0.500%\n止盈目标：—\n退出原因：—\n错误：x&lt;y"
    );
}

fn rule(id: &str, status: &str) -> AutoCloseRule {
    AutoCloseRule {
        id: id.to_string(),
        position_id: "live-ABC".to_string(),
        token: "ABC".to_string(),
        threshold_apy_percent: d(50.0),
        order_notional_usdt: d(100.0),
        interval_seconds: d(2.0),
        status: status.to_string(),
        current_apy_percent: None,
        consecutive_low_readings: 0,
        completed_notional_usdt: d(30.0),
        created_at: 0,
        updated_at: 0,
        triggered_at: None,
        error: None,
    }
}

#[test]
fn rules_are_shown_while_they_count() {
    assert_eq!(show_auto_close_rules(&vec![rule("r", "completed")]).text, "当前没有生效中的自动平仓规则。");
    let mut second = rule("r2", "closing");
    second.current_apy_percent = Some(d(12.34));
    let reply = show_auto_close_rules(&vec![rule("r1", "armed"), rule("r0", "failed"), second]);
    assert_eq!(
        reply.text,
        "<b>自动平仓规则</b>\n\n<b>ABC</b> · armed\n当前 APY 等待检查 / 阈值 50.0%\n每单 $100.00 · 2.0s · 已执行 $30.00\n\n<b>ABC</b> · closing\n当前 APY 12.3% / 阈值 50.0%\n每单 $100.00 · 2.0s · 已执行 $30.00\n\n"
    );
    assert_eq!(data(&reply), keys(&[&[("取消 ABC", "ax|r1")], &[("刷新", "al"), ("持仓", "pos")]]));
}

#[test]
fn results_are_told() {
    let response = |message: &str| TradeResponse {
        position: pair(),
        mode: "live".to_string(),
        message: message.to_string(),
        execution: None,
    };
    assert_eq!(
        tell_opened(&response("done"), d(50.0), "5").text,
        "✅ done\n<b>ABC</b> · 每腿 $50.00 · 5×\n当前仓位 $100.00"
    );
    assert_eq!(tell_reduced(&response("less")).text, "✅ less\n<b>ABC</b> 当前每腿约 $100.00");
    assert_eq!(tell_leverage(&response("a<b")).text, "✅ a&lt;b");
    let closed = tell_closed(&response("shut"));
    assert_eq!((closed.text.as_str(), data(&closed)), ("✅ shut\n<b>ABC</b> 已平仓", keys(&[&[("查看持仓", "pos")]])));
    let set = tell_rule_set(&rule("r1", "armed"));
    assert_eq!(
        set.text,
        "✅ 自动平仓已启用\n<b>ABC</b> APY 低于 50.0% 时触发\n每单 $100.00 · 间隔 2.0s · 直到全部平仓"
    );
    assert_eq!(data(&set), keys(&[&[("查看规则", "al"), ("返回持仓", "p|live-ABC")]]));
    assert_eq!(tell_rule_cancelled(&rule("r1", "cancelled")).text, "✅ 已取消 <b>ABC</b> 的自动平仓规则");
    assert_eq!(tell_error("a & b").text, "❌ a &amp; b");
    assert!(tell_error("x").keyboard.is_empty());
}

#[test]
fn help_names_every_command() {
    let reply = send_help();
    for command in ["/opportunities", "/positions", "/account", "/protection", "/spread_strategy", "/open", "/batch_open", "/guard_open", "/reduce", "/batch_reduce", "/no_loss_close", "/leverage", "/close", "/autoclose", "/autoclose_list", "/autoclose_cancel", "/help"] {
        assert!(reply.text.contains(command), "{command}");
    }
    assert!(reply.text.contains("<code>/open DEXE 100 2</code>"));
    assert!(reply.text.ends_with("所有交易动作均需按钮二次确认。"));
    assert_eq!(data(&reply), keys(&[&[("套利机会", "opps"), ("当前持仓", "pos")], &[("账户概览", "acct")]]));
}

fn said(x: f64) -> Amount {
    Amount { value: d(x), shown: x.to_string() }
}

#[test]
fn rules_are_confirmed_before_they_are_set() {
    let reply = confirm_auto_close(&pair(), &said(50.0), &order_or_usual(None), &interval_or_usual(None)).unwrap();
    assert_eq!(
        reply.text,
        "⚠️ 确认启用自动平仓？\n<b>ABC</b>\nAPY 低于 50.0% 时触发\n每单 $100.00 · 间隔 2.0s · 直到全部平仓"
    );
    assert_eq!(data(&reply), keys(&[&[("确认启用", "aux|live-ABC|50|100|2"), ("取消", "p|live-ABC")]]));
    assert_eq!(
        confirm_auto_close(&pair(), &said(50.0), &said(9.0), &said(2.0)).err().unwrap(),
        "单笔金额至少 10 USDT，间隔至少 0.5 秒"
    );
    assert_eq!(order_or_usual(Some(said(7.5))).shown, "7.5");
    assert_eq!(interval_or_usual(Some(said(3.5))).shown, "3.5");
}

#[test]
fn messages_are_read_by_their_words_and_buttons_by_their_parts() {
    assert_eq!(message_words("  /open  BTC\t100 5 "), vec!["/open", "BTC", "100", "5"]);
    assert!(message_words(" ").is_empty());
    assert_eq!(payload_parts("o|BTC||5"), vec!["o", "BTC", "", "5"]);
    assert_eq!(payload_parts(""), vec![""]);
}
