use arbiview::config::TelegramConfig;
use arbiview::models::{
    BatchExecutionLog, BatchIncreaseTask, Leg, OpportunityHistoryPoint, OpportunityHistoryResponse, Opportunity,
    Position, PositionLeg, Token,
};
use arbiview::num::Double;
use arbiview::telegram::callbacks::{handle_callback, Callback};
use arbiview::telegram::questions::{
    batch_open_request, confirm_auto_close, confirm_batch_open, confirm_batch_reduce, confirm_close,
    confirm_guard_open, confirm_no_loss_close, confirm_open, guard_open_request, no_loss_request, open_request,
    reduce_command,
};
use arbiview::telegram::replies::{
    button, choose_leverage, find_opportunity, find_position, find_position_by_token, Reply,
};
use arbiview::telegram::shows::{
    position_keyboard, send_help, show_batch_task, show_market_history, show_opportunity, show_positions, tell_error,
};
use arbiview::telegram::text::{
    batch_status, break_even, compact_usdt, funding_schedule, html, market_label, short_exchange, telegram_tags,
};
use arbiview::telegram::updates::{check_call, handle_update, CallbackMessage, CallbackQuery, Handling, Message, Update};
use arbiview::telegram::words::{
    authorized, handle_command, parse_close_target, parse_u8, validate_batch_settings, Amount, Command, Word,
};
use arbiview::text::split;

fn d(x: f64) -> Double {
    Double::from_bits(x.to_bits())
}

fn f(x: Double) -> f64 {
    f64::from_bits(x.bits)
}

fn amount(x: f64) -> Amount {
    Amount { value: d(x), shown: format!("{x}") }
}

fn word(text: &str) -> Word {
    Word { text: text.into(), number: text.parse::<f64>().ok().map(amount) }
}

fn words(text: &str) -> Vec<Word> {
    text.split_whitespace().map(word).collect()
}

fn parts(data: &str) -> Vec<Word> {
    split(data, '|').iter().map(|part| word(part)).collect()
}

#[test]
fn escapes_html() {
    assert_eq!(html("A&B<C>"), "A&amp;B&lt;C&gt;");
}

#[test]
fn formats_break_even() {
    assert_eq!(break_even(d(0.5)), "30 分钟");
    assert_eq!(break_even(d(2.25)), "2.2 小时");
}

fn test_leg(exchange: &str, side: &str) -> PositionLeg {
    PositionLeg {
        exchange: exchange.into(),
        market: "perpetual".into(),
        symbol: "TESTUSDT".into(),
        side: side.into(),
        quantity: d(1.0),
        entry_price: d(1.0),
        mark_price: d(1.0),
        unrealized_pnl: d(0.0),
        funding_earned: d(0.0),
        funding_rate: d(0.0),
        leverage: 1,
    }
}

fn test_position(id: &str, token: &str, notional: f64, leverage: u8) -> Position {
    Position {
        id: id.into(),
        token: token.into(),
        status: "open".into(),
        opened_at: 0,
        notional_usdt: d(notional),
        leverage,
        long: test_leg("Binance", "long"),
        short: test_leg("Bybit", "short"),
        funding_earned: d(0.0),
        unrealized_pnl: d(0.0),
        current_pnl_usdt: d(0.0),
        current_roi: d(0.0),
        roi_basis_usdt: d(200.0),
        current_funding_per_hour: None,
        current_spread: None,
        current_apy: None,
    }
}

#[test]
fn callback_payloads_fit_telegram_limit() {
    let position = test_position("live-SOMELONGTOKENSYMBOL", "SOMELONGTOKENSYMBOL", 100.0, 1);
    for row in position_keyboard(&position) {
        for button in row {
            assert!(button.callback_data.len() <= 64);
        }
    }
}

#[test]
fn validates_batch_settings() {
    let validate = |target: f64, order: f64, interval: f64| validate_batch_settings(d(target), d(order), d(interval));
    assert!(validate(1_000.0, 100.0, 2.0).is_ok());
    assert!(validate(1_000.0, 2_000.0, 2.0).is_err());
    assert!(validate(1_000.0, 100.0, 0.1).is_err());
}

#[test]
fn parses_all_as_the_full_position_notional() {
    let position = test_position("live-TEST", "TEST", 1_234.5, 10);
    let parse = |text: &str| parse_close_target(&word(text), &position).map(|(target, all)| (f(target), all));
    assert_eq!(parse("ALL").unwrap(), (1_234.5, true));
    assert_eq!(parse("500").unwrap(), (500.0, false));
}

#[test]
fn a_target_is_a_number_or_all() {
    let position = test_position("live-TEST", "TEST", 1_234.5, 10);
    let fault = parse_close_target(&word("half"), &position).unwrap_err();
    assert_eq!(fault, "目标金额必须是数字或 all：half");
}

#[test]
fn batch_settings_name_what_is_wrong() {
    let fault = |target: f64, order: f64, interval: f64| {
        validate_batch_settings(d(target), d(order), d(interval)).unwrap_err()
    };
    assert_eq!(fault(5.0, 5.0, 1.0), "目标金额范围为 10–1,000,000 USDT");
    assert_eq!(fault(100.0, 5.0, 1.0), "单笔金额必须在 10 USDT 与目标金额之间");
    assert_eq!(fault(100.0, 50.0, 3_601.0), "批次间隔范围为 0.5–3,600 秒");
}

#[test]
fn small_texts() {
    assert_eq!(market_label("spot"), "SPOT");
    assert_eq!(market_label("perpetual"), "PERP");
    assert_eq!(short_exchange("Binance"), "B");
    assert_eq!(short_exchange(""), "?");
    assert_eq!(batch_status("queued"), "等待执行");
    assert_eq!(batch_status("odd"), "odd");
    assert_eq!(telegram_tags(&vec![]), "");
    assert_eq!(telegram_tags(&vec!["a<b".into(), "c".into()]), " · #a&lt;b #c");
    assert_eq!(compact_usdt(d(1_500_000_000.0)), "$1.50B");
    assert_eq!(compact_usdt(d(2_340_000.0)), "$2.34M");
    assert_eq!(compact_usdt(d(1_000.0)), "$1.00K");
    assert_eq!(compact_usdt(d(999.994)), "$999.99");
    assert_eq!(break_even(d(-1.0)), "立即");
    let made = button("取消", "p|x");
    assert_eq!(made.text, "取消");
    assert_eq!(made.callback_data, "p|x");
    assert_eq!(tell_error("a<b").text, "❌ a&lt;b");
}

#[test]
fn small_numbers_are_read_like_the_standard_library_does() {
    for text in ["0", "5", "+20", "255", "256", "300x", "x300", "", "-", "+", "-5", "007", "99999999999999999999"] {
        match (text.parse::<u8>(), parse_u8(text)) {
            (Ok(a), Ok(b)) => assert_eq!(a, b),
            (Err(a), Err(b)) => assert_eq!(a.to_string(), b),
            (a, b) => panic!("{text}: {a:?} {b:?}"),
        }
    }
}

#[test]
fn commands_are_read() {
    match handle_command(&words("/open@desk_bot dexe 100 3")).unwrap() {
        Command::Open { token, notional, leverage } => {
            assert_eq!(token, "dexe");
            assert_eq!(f(notional.value), 100.0);
            assert_eq!(leverage, Some(3));
        }
        _ => panic!("an opening"),
    }
    assert!(matches!(handle_command(&words("/start")).unwrap(), Command::Help));
    assert!(matches!(handle_command(&vec![]).unwrap(), Command::Unknown));
    assert!(matches!(handle_command(&words("/status")).unwrap(), Command::Positions));
    match handle_command(&words("/no_loss_close DEXE all -0.5")).unwrap() {
        Command::NoLossClose { target, threshold, .. } => {
            assert_eq!(target.text, "all");
            assert_eq!(threshold.map(f), Some(-0.005));
        }
        _ => panic!("a closing without a loss"),
    }
}

fn fault(text: &str) -> String {
    match handle_command(&words(text)) {
        Err(fault) => fault,
        Ok(_) => panic!("{text} is refused"),
    }
}

#[test]
fn commands_name_what_is_wrong() {
    assert_eq!(fault("/open"), "用法：/open TOKEN 金额 [杠杆]");
    assert_eq!(fault("/open DEXE"), "缺少金额");
    assert_eq!(fault("/open DEXE much"), "金额格式错误");
    assert_eq!(fault("/open DEXE 100 300"), "number too large to fit in target type");
    assert_eq!(fault("/batch_open DEXE 100 10"), "缺少间隔秒数");
    assert_eq!(fault("/guard_open DEXE"), "缺少目标金额");
    assert_eq!(fault("/reduce"), "用法：/reduce TOKEN 金额");
    assert_eq!(fault("/batch_reduce DEXE"), "缺少目标金额");
    assert_eq!(fault("/no_loss_close DEXE all x"), "最高平仓价差必须是数字");
    assert_eq!(fault("/leverage DEXE 21"), "杠杆范围为 1–20×");
    assert_eq!(fault("/leverage DEXE"), "缺少杠杆");
    assert_eq!(fault("/close"), "用法：/close TOKEN");
    assert_eq!(fault("/autoclose DEXE"), "缺少APY 阈值");
    assert_eq!(fault("/autoclose DEXE 100 x"), "invalid float literal");
    assert_eq!(fault("/autoclose_cancel"), "用法：/autoclose_cancel RULE_ID");
}

fn market_leg(exchange: &str, market: &str) -> Leg {
    Leg {
        exchange: exchange.into(),
        market: market.into(),
        base: "DEXE".into(),
        symbol: "DEXEUSDT".into(),
        bid: d(10.0),
        ask: d(10.5),
        bid_quantity: d(1.0),
        ask_quantity: d(1.0),
        mark: d(10.0),
        rate: d(0.0001),
        interval_hours: d(8.0),
        next_funding_time: 1_700_000_000_000,
        qty_step: d(0.1),
        tags: vec![],
        volume_24h_usdt: d(1_200.0),
    }
}

fn offer() -> Opportunity {
    Opportunity {
        id: "DEXE-Binance-Bybit".into(),
        token: Token { symbol: "DEXE".into(), name: "DeXe".into(), rank: None, tags: vec!["cmc200".into()] },
        long: market_leg("Binance", "perpetual"),
        short: market_leg("Bybit", "perpetual"),
        funding_per_hour: d(0.0002),
        borrow_interest_per_hour: d(0.0),
        apy: d(1.752),
        apy_horizon_hours: 7,
        spread: d(0.001),
        average_spread_24h: d(0.0),
        spread_vs_average: d(0.001),
        fees: d(0.0021),
        break_even_hours: d(2.25),
        route_type: "cross_perpetual".into(),
        execution_supported: true,
    }
}

fn first_data(reply: &Reply) -> String {
    reply.keyboard[0][0].callback_data.clone()
}

#[test]
fn an_opening_is_confirmed_before_it_is_made() {
    let reply = confirm_open(&offer(), &amount(100.0), 5).unwrap();
    assert_eq!(
        reply.text,
        "⚠️ 确认开仓？\n<b>DEXE</b> · 每腿 $100.00 · 5×\n🟢 LONG Binance\n🔴 SHORT Bybit"
    );
    assert_eq!(first_data(&reply), "ox|DEXE|B|B|100|5");
    assert_eq!(reply.keyboard[0][1].callback_data, "o|DEXE|B|B");
    match handle_callback(&parts(&first_data(&reply))).unwrap() {
        Callback::Open { token, long, short, amount, leverage } => {
            assert_eq!((token.as_str(), long.as_str(), short.as_str()), ("DEXE", "B", "B"));
            let request = open_request(&offer(), &amount, &leverage).unwrap();
            assert_eq!(request.opportunity_id, "DEXE-Binance-Bybit");
            assert_eq!(f(request.notional_usdt), 100.0);
            assert_eq!(request.leverage, 5);
            assert!(!request.spread_guard);
        }
        _ => panic!("an opening"),
    }
    assert_eq!(
        confirm_open(&offer(), &amount(9.0), 5).unwrap_err(),
        "金额至少 10 USDT，杠杆范围 1–20×"
    );
    assert!(confirm_open(&offer(), &amount(100.0), 21).is_err());
    assert_eq!(
        open_request(&offer(), &word(""), "5").unwrap_err(),
        "cannot parse float from empty string"
    );
    assert_eq!(open_request(&offer(), &word("1"), "x").unwrap_err(), "invalid digit found in string");
}

#[test]
fn openings_in_batches_are_confirmed() {
    let reply = confirm_batch_open(&offer(), &amount(1_000.0), &amount(300.0), &amount(0.5), 3).unwrap();
    assert!(reply.text.contains("预计 4 批"));
    assert_eq!(first_data(&reply), "box|DEXE|B|B|1000|300|0.5|3");
    match handle_callback(&parts(&first_data(&reply))).unwrap() {
        Callback::BatchOpen { target, order, interval, leverage, .. } => {
            let request = batch_open_request(&offer(), &target, &order, &interval, &leverage).unwrap();
            assert_eq!(f(request.target_notional_usdt), 1_000.0);
            assert_eq!(f(request.order_notional_usdt), 300.0);
            assert_eq!(f(request.interval_seconds), 0.5);
            assert_eq!(request.leverage, 3);
        }
        _ => panic!("an opening in batches"),
    }
    assert_eq!(
        confirm_batch_open(&offer(), &amount(1_000.0), &amount(300.0), &amount(0.5), 0).unwrap_err(),
        "杠杆范围为 1–20×"
    );
}

#[test]
fn guarded_openings_are_confirmed() {
    let reply = confirm_guard_open(&offer(), &amount(1_000.0), 5, &amount(-0.015)).unwrap();
    assert!(reply.text.contains("-1.5000% 门槛"));
    assert_eq!(first_data(&reply), "gox|DEXE|B|B|1000|5|-0.015");
    match handle_callback(&parts(&first_data(&reply))).unwrap() {
        Callback::GuardOpen { target, leverage, threshold, .. } => {
            let request = guard_open_request(&offer(), &target, &leverage, &threshold).unwrap();
            assert!(request.spread_guard);
            assert_eq!(f(request.interval_seconds), 0.25);
            assert_eq!(request.spread_threshold.map(f), Some(-0.015));
        }
        _ => panic!("a guarded opening"),
    }
    assert!(confirm_guard_open(&offer(), &amount(5.0), 5, &amount(0.0)).is_err());
}

#[test]
fn closings_are_confirmed() {
    let position = test_position("live-DEXE", "DEXE", 500.0, 2);
    let reply = confirm_close(&position);
    assert_eq!(reply.text, "🚨 确认完全平掉 <b>DEXE</b> 的双腿仓位？此操作不可撤销。");
    assert!(matches!(handle_callback(&parts(&first_data(&reply))).unwrap(), Callback::Close { id } if id == "live-DEXE"));
    let all = reduce_command(&position, Some(&word("ALL"))).unwrap();
    assert_eq!(first_data(&all), "cx|live-DEXE");
    let some = reduce_command(&position, Some(&word("50.0"))).unwrap();
    assert_eq!(some.text, "⚠️ 确认减少 <b>DEXE</b> 每腿 $50.00？");
    assert_eq!(first_data(&some), "rx|live-DEXE|50");
    assert_eq!(reduce_command(&position, None).unwrap_err(), "缺少金额");
    assert_eq!(reduce_command(&position, Some(&word("x"))).unwrap_err(), "金额必须是数字或 all");
    let batches = confirm_batch_reduce(&position, &word("all"), &amount(100.0), &amount(2.0)).unwrap();
    assert_eq!(first_data(&batches), "brx|live-DEXE|all|100|2");
    assert!(batches.text.contains("每腿目标 ALL（全平）"));
    let careful = confirm_no_loss_close(&position, &word("490"), &Some(amount(-0.005))).unwrap();
    assert_eq!(first_data(&careful), "nlx|live-DEXE|490|-0.005");
    match handle_callback(&parts(&first_data(&careful))).unwrap() {
        Callback::NoLossCloseAt { target, threshold, .. } => {
            let request = no_loss_request(&position, &target, Some(&threshold)).unwrap();
            assert!(request.no_loss_guard);
            assert_eq!(request.close_spread_threshold.map(f), Some(-0.005));
        }
        _ => panic!("a closing without a loss"),
    }
    assert_eq!(
        confirm_no_loss_close(&position, &word("491"), &None).unwrap_err(),
        "目标金额必须在 10 与 490.00 USDT 之间；需保留至少 10 USDT，全部退出请使用普通平仓"
    );
    let rule = confirm_auto_close(&position, &amount(300.0), &amount(100.0), &amount(2.0)).unwrap();
    assert_eq!(first_data(&rule), "aux|live-DEXE|300|100|2");
    assert_eq!(
        confirm_auto_close(&position, &amount(300.0), &amount(5.0), &amount(2.0)).unwrap_err(),
        "单笔金额至少 10 USDT，间隔至少 0.5 秒"
    );
}

#[test]
fn unknown_buttons_are_refused() {
    let refused = |data: &str| match handle_callback(&parts(data)) {
        Err(fault) => fault,
        Ok(_) => panic!("{data} is refused"),
    };
    assert_eq!(refused("ox|DEXE"), "按钮已失效，请重新查询");
    assert_eq!(refused(""), "按钮已失效，请重新查询");
    assert_eq!(refused("zz|1"), "按钮已失效，请重新查询");
}

fn config(topic_id: Option<i64>, users: Vec<i64>) -> TelegramConfig {
    TelegramConfig { token: "t".into(), chat_id: 7, topic_id, authorized_users: users }
}

#[test]
fn the_bot_listens_to_its_own_only() {
    assert!(authorized(&config(None, vec![]), 7, None, None));
    assert!(!authorized(&config(None, vec![]), 8, None, None));
    assert!(authorized(&config(Some(3), vec![]), 7, None, Some(3)));
    assert!(!authorized(&config(Some(3), vec![]), 7, None, None));
    assert!(authorized(&config(None, vec![1, 2]), 7, Some(2), None));
    assert!(!authorized(&config(None, vec![1, 2]), 7, Some(3), None));
    assert!(!authorized(&config(None, vec![1, 2]), 7, None, None));
}

#[test]
fn updates_of_strangers_are_ignored() {
    let message = |chat_id: i64| Update {
        update_id: 1,
        message: Some(Message { chat_id, user_id: Some(5), text: Some("/help".into()), topic_id: None }),
        callback_query: None,
    };
    assert!(matches!(handle_update(&config(None, vec![5]), &message(7)), Handling::Command(text) if text == "/help"));
    assert!(matches!(handle_update(&config(None, vec![5]), &message(8)), Handling::Ignore));
    let pressed = |user_id: i64| Update {
        update_id: 1,
        message: None,
        callback_query: Some(CallbackQuery {
            id: "q".into(),
            user_id,
            message: Some(CallbackMessage { chat_id: 7, message_id: 9, topic_id: None }),
            data: Some("pos".into()),
        }),
    };
    assert!(matches!(
        handle_update(&config(None, vec![5]), &pressed(5)),
        Handling::Pressed { message_id: 9, .. }
    ));
    assert!(matches!(handle_update(&config(None, vec![5]), &pressed(6)), Handling::Ignore));
}

#[test]
fn answers_of_telegram_are_checked() {
    assert!(check_call("getUpdates", true, None, true).is_ok());
    assert_eq!(check_call("getUpdates", false, None, true).unwrap_err(), "Telegram getUpdates: unknown error");
    assert_eq!(
        check_call("getUpdates", false, Some("Conflict".into()), false).unwrap_err(),
        "Telegram getUpdates: Conflict"
    );
    assert_eq!(check_call("getUpdates", true, None, false).unwrap_err(), "Telegram getUpdates returned no result");
}

#[test]
fn routes_and_positions_are_found_by_name() {
    let found = find_opportunity(&vec![], &vec![offer()], "dexe", Some("b"), Some("B")).unwrap();
    assert_eq!(found.id, "DEXE-Binance-Bybit");
    assert_eq!(
        find_opportunity(&vec![offer()], &vec![], "DEXE", Some("Y"), None).unwrap_err(),
        "该套利机会已不存在，请刷新机会列表"
    );
    let held = vec![test_position("live-DEXE", "DEXE", 100.0, 9)];
    assert_eq!(find_position(&held, "live-DEXE").unwrap().token, "DEXE");
    assert_eq!(find_position(&held, "x").unwrap_err(), "仓位不存在或已经平仓");
    assert_eq!(find_position_by_token(&held, "XMR").unwrap_err(), "找不到 XMR 的套利仓位");
    assert_eq!(choose_leverage(None, &held, "dexe"), 9);
    assert_eq!(choose_leverage(None, &held, "XMR"), 5);
    assert_eq!(choose_leverage(Some(3), &held, "dexe"), 3);
}

#[test]
fn a_route_is_shown_with_its_settlements() {
    let leg = market_leg("Binance", "perpetual");
    assert_eq!(funding_schedule(&leg, "8"), "资费 +0.0100% / 8h · 下次 11-15 06:13");
    assert_eq!(funding_schedule(&market_leg("Binance", "spot"), "8"), "现货腿 · 无资金费结算");
    let mut far = market_leg("Binance", "perpetual");
    far.next_funding_time = i64::MAX;
    assert_eq!(funding_schedule(&far, "8"), "资费 +0.0100% / 8h · 下次 —");
    let reply = show_opportunity(&offer(), "8", "8");
    assert_eq!(
        reply.text,
        "<b>DEXE/USDT</b> · #cmc200\n🟢 LONG Binance · PERP @ $10.500000 · 24h $1.20K\n   资费 +0.0100% / 8h · 下次 11-15 06:13\n🔴 SHORT Bybit · PERP @ $10.000000 · 24h $1.20K\n   资费 +0.0100% / 8h · 下次 11-15 06:13\n\n资金 APY：+175.20%（最佳平均收益需持有 7 小时）\n开仓价差：+0.100%\n预计回本：2.2 小时\n资金净收益：+0.02000%/小时"
    );
    assert_eq!(reply.keyboard[0][1].callback_data, "oc|DEXE|B|B|500|5");
}

#[test]
fn a_history_is_shown_as_a_table() {
    let history = OpportunityHistoryResponse {
        opportunity_id: "x".into(),
        funding_note: "".into(),
        points: vec![OpportunityHistoryPoint {
            timestamp: 1_700_000_000_000,
            long_close: d(1.0),
            short_close: d(1.0),
            directional_spread_percent: d(0.25),
            long_funding_rate: Some(d(0.0001)),
            short_funding_rate: None,
        }],
    };
    let reply = show_market_history("DEXE", &history, "o|DEXE|B|B");
    assert!(reply.text.ends_with(
        "<pre>时间   价差%    Long%   Short%\n11-15 06  +0.250  +0.010       —</pre>"
    ));
    assert_eq!(reply.keyboard[0][0].callback_data, "oh|DEXE|B|B");
    assert_eq!(reply.keyboard[0][1].callback_data, "o|DEXE|B|B");
    let held = show_market_history("DEXE", &history, "p|live-DEXE");
    assert_eq!(held.keyboard[0][0].callback_data, "ph|live-DEXE");
}

#[test]
fn a_task_is_shown_with_its_last_fills() {
    let log = |batch: usize| BatchExecutionLog {
        sequence: batch,
        batch,
        timestamp: 0,
        exchange: "Binance".into(),
        side: "long".into(),
        token: "DEXE".into(),
        notional_usdt: d(50.0),
        executed_quantity: d(5.0),
        average_price: d(10.0),
        status: "FILLED".into(),
        order_id: "1".into(),
        message: "".into(),
    };
    let mut task = BatchIncreaseTask {
        id: "t1".into(),
        action: "increase".into(),
        status: "running".into(),
        token: "DEXE".into(),
        long_exchange: "Binance".into(),
        short_exchange: "Bybit".into(),
        target_notional_usdt: d(400.0),
        order_notional_usdt: d(50.0),
        interval_seconds: d(2.0),
        leverage: Some(3),
        spread_guard: false,
        spread_threshold: None,
        current_spread: None,
        effective_spread_threshold: None,
        cumulative_filled_spread: None,
        spread_wait_count: 0,
        no_loss_guard: false,
        current_close_pnl_usdt: None,
        completed_notional_usdt: d(100.0),
        completed_batches: 2,
        total_batches: 8,
        started_at: 0,
        updated_at: 0,
        cancel_requested: false,
        error: Some("a<b".into()),
        current_position: None,
        logs: (1..=7).map(log).collect(),
    };
    let reply = show_batch_task(&task);
    assert!(reply.text.starts_with(
        "<b>批量加仓 · DEXE</b>\n状态：执行中\n进度：25.0% · $100.00 / $400.00\n批次：2 / 8\n单笔 $50.00 · 间隔 2.0s\n杠杆：3×\n\n❌ a&lt;b\n\n<b>最近成交</b>\n#2 Binance · LONG DEXE · $50.00 @ $10.000000\n#3"
    ));
    assert_eq!(reply.keyboard[0].len(), 2);
    task.status = "completed".into();
    assert_eq!(show_batch_task(&task).keyboard[0].len(), 1);
    task.spread_guard = true;
    task.current_spread = Some(d(0.01));
    assert!(show_batch_task(&task).text.contains("保价差限价：门槛 +0.0000% · 当前 +1.0000% · 已等待 0 次"));
}

#[test]
fn positions_are_listed() {
    let empty = show_positions(&vec![]);
    assert_eq!(empty.text, "当前没有套利仓位。");
    let held = vec![test_position("live-DEXE", "DEXE", 100.0, 9)];
    let reply = show_positions(&held);
    assert_eq!(
        reply.text,
        "<b>当前套利仓位</b>\n\n<b>DEXE</b> · $100.00 · 9× · 扣费盈亏 +0.00 · ROI +0.00%\n资费净差 / 价差 / APY：实时行情暂不可用\n"
    );
    assert_eq!(reply.keyboard[0][0].callback_data, "p|live-DEXE");
    assert!(send_help().text.ends_with("所有交易动作均需按钮二次确认。"));
}
