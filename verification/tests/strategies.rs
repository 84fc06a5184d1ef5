use arbiview::funding_cycle_strategy::{
    cleanup_settled, has_active_batch_task, has_active_symbol_task, stop_active_symbol_tasks, stop_verdict, CycleCheck,
    ExitVerdict, FundingCycleStrategyService, ENTRY_HOURLY_RETURN_THRESHOLD, EXIT_APY_THRESHOLD,
};
use arbiview::models::{BatchExecutionLog, BatchIncreaseTask, Leg, Opportunity, Position, PositionLeg, Token};
use arbiview::num::constants::YEAR_HOURS;
use arbiview::num::Double;
use arbiview::spread_strategy::{
    exit_reason_label, monitor_active, monitor_entry, monitor_market_exit, monitor_reconciliation, on_close,
    on_entry_task, on_exit_task, quantity_reconciled, take_profit_target, ActiveStep, MarketExitStep,
    SpreadStrategyService, SpreadStrategyTrade, StrategyTick,
};

fn d(x: f64) -> Double {
    Double::from_bits(x.to_bits())
}

fn f(x: Double) -> f64 {
    f64::from_bits(x.bits)
}

#[test]
fn configured_thresholds_match_the_strategy_specification() {
    let entry = f64::from_bits(ENTRY_HOURLY_RETURN_THRESHOLD);
    let exit = f64::from_bits(EXIT_APY_THRESHOLD);
    let year = f64::from_bits(YEAR_HOURS);
    assert_eq!(entry, 0.002);
    assert_eq!(exit, 1.0);
    assert!((exit / year - 0.000114155).abs() < 1e-9);
}

#[test]
fn take_profit_roi_drops_each_hour_and_reaches_zero_at_five_hours() {
    let target = |deviation: f64, hours: i64| f(take_profit_target(d(deviation), hours));
    assert!((target(0.012, 0) - 0.012).abs() < 1e-12);
    assert!((target(0.012, 1) - 0.010).abs() < 1e-12);
    assert!((target(0.012, 4) - 0.004).abs() < 1e-12);
    assert_eq!(target(0.012, 5), 0.0);
    assert_eq!(target(0.012, 8), 0.0);
}

#[test]
fn position_reconciliation_rejects_a_stale_half_position() {
    let reconciled = |actual: f64, expected: f64| quantity_reconciled(d(actual), d(expected));
    assert!(reconciled(7_857.0, 7_857.0));
    assert!(reconciled(7_853.0, 7_857.0));
    assert!(!reconciled(3_960.0, 7_857.0));
    assert!(!reconciled(0.0, 7_857.0));
}

fn leg(exchange: &str) -> Leg {
    Leg {
        exchange: exchange.into(),
        market: "perpetual".into(),
        base: "DEXE".into(),
        symbol: "DEXEUSDT".into(),
        bid: d(10.0),
        ask: d(10.0),
        bid_quantity: d(1.0),
        ask_quantity: d(1.0),
        mark: d(10.0),
        rate: d(0.001),
        interval_hours: d(1.0),
        next_funding_time: 0,
        qty_step: d(0.1),
        tags: vec![],
        volume_24h_usdt: d(1.0),
    }
}

fn offer(symbol: &str, deviation: f64) -> Opportunity {
    Opportunity {
        id: format!("spread-{symbol}"),
        token: Token { symbol: symbol.into(), name: symbol.into(), rank: None, tags: vec![] },
        long: leg("Binance"),
        short: leg("Bybit"),
        funding_per_hour: d(0.003),
        borrow_interest_per_hour: d(0.0),
        apy: d(26.28),
        apy_horizon_hours: 1,
        spread: d(0.015),
        average_spread_24h: d(0.0),
        spread_vs_average: d(deviation),
        fees: d(0.002),
        break_even_hours: d(1.0),
        route_type: "cross_perpetual".into(),
        execution_supported: true,
    }
}

fn position(token: &str, roi: f64) -> Position {
    let leg = |exchange: &str, side: &str| PositionLeg {
        exchange: exchange.into(),
        market: "perpetual".into(),
        symbol: format!("{token}USDT"),
        side: side.into(),
        quantity: d(10.0),
        entry_price: d(10.0),
        mark_price: d(10.0),
        unrealized_pnl: d(0.0),
        funding_earned: d(0.0),
        funding_rate: d(0.0),
        leverage: 5,
    };
    Position {
        id: format!("live-{token}"),
        token: token.into(),
        status: "open".into(),
        opened_at: 0,
        notional_usdt: d(100.0),
        leverage: 5,
        long: leg("Binance", "long"),
        short: leg("Bybit", "short"),
        funding_earned: d(0.0),
        unrealized_pnl: d(0.0),
        current_pnl_usdt: d(0.0),
        current_roi: d(roi),
        roi_basis_usdt: d(40.0),
        current_funding_per_hour: None,
        current_spread: None,
        current_apy: None,
    }
}

fn task(id: &str, token: &str, status: &str) -> BatchIncreaseTask {
    BatchIncreaseTask {
        id: id.into(),
        action: "increase".into(),
        status: status.into(),
        token: token.into(),
        long_exchange: "Binance".into(),
        short_exchange: "Bybit".into(),
        target_notional_usdt: d(100.0),
        order_notional_usdt: d(50.0),
        interval_seconds: d(1.0),
        leverage: Some(5),
        spread_guard: true,
        spread_threshold: None,
        current_spread: None,
        effective_spread_threshold: None,
        cumulative_filled_spread: None,
        spread_wait_count: 0,
        no_loss_guard: false,
        current_close_pnl_usdt: None,
        completed_notional_usdt: d(100.0),
        completed_batches: 2,
        total_batches: 2,
        started_at: 0,
        updated_at: 0,
        cancel_requested: false,
        error: None,
        current_position: None,
        logs: vec![],
    }
}

fn log(side: &str, quantity: f64) -> BatchExecutionLog {
    BatchExecutionLog {
        sequence: 1,
        batch: 1,
        timestamp: 0,
        exchange: "Binance".into(),
        side: side.into(),
        token: "DEXE".into(),
        notional_usdt: d(100.0),
        executed_quantity: d(quantity),
        average_price: d(10.0),
        status: "FILLED".into(),
        order_id: "1".into(),
        message: "".into(),
    }
}

fn started(now: i64) -> SpreadStrategyTrade {
    let mut service = SpreadStrategyService::new(None, true);
    service.scan_entry(&vec![offer("DEXE", 0.012)], &vec![], now).unwrap();
    service.status().unwrap()
}

#[test]
fn a_gap_is_entered_where_it_is_wide_and_nothing_is_held() {
    let mut service = SpreadStrategyService::new(None, true);
    assert!(service.spawn());
    assert_eq!(service.tick(0), StrategyTick::Scan);
    assert!(service.scan_entry(&vec![offer("DEXE", 0.0099)], &vec![], 7).is_none());
    assert!(service.scan_entry(&vec![offer("DEXE", 0.012)], &vec![position("DEXE", 0.0)], 7).is_none());
    let mut blocked = offer("DEXE", 0.012);
    blocked.execution_supported = false;
    assert!(service.scan_entry(&vec![blocked], &vec![], 7).is_none());
    assert!(service.status().is_none());
    let request = service.scan_entry(&vec![offer("AAA", 0.001), offer("DEXE", 0.012)], &vec![], 7).unwrap();
    assert_eq!(request.opportunity_id, "spread-DEXE");
    assert_eq!(f(request.target_notional_usdt), 100.0);
    assert_eq!(request.leverage, 5);
    assert!(request.spread_guard);
    assert_eq!(request.spread_threshold.map(f), Some(0.015));
    let trade = service.status().unwrap();
    assert_eq!(trade.status, "entering");
    assert_eq!(trade.signal_at, 7);
    assert_eq!(service.tick(8), StrategyTick::Entry);
}

#[test]
fn an_entry_that_cannot_start_fails() {
    let trade = on_entry_task(started(7), Err("no route".into()), 9);
    assert_eq!(trade.status, "failed");
    assert_eq!(trade.error.unwrap(), "entry task failed: no route");
    assert_eq!(trade.closed_at, Some(9));
}

#[test]
fn an_entry_waits_for_its_fills() {
    let trade = on_entry_task(started(7), Ok("task".into()), 9);
    let waiting = monitor_entry(trade.clone(), Some(&task("task", "DEXE", "running")), &vec![], 10);
    assert_eq!(waiting.status, "entering");
    let mut done = task("task", "DEXE", "completed");
    let bare = monitor_entry(trade.clone(), Some(&done), &vec![], 10);
    assert_eq!(bare.error.unwrap(), "entry completed without a complete two-leg fill ledger");
    done.logs = vec![log("long", 4.0), log("short", 10.0), log("long", 6.0), log("long", 0.0)];
    let filled = monitor_entry(trade.clone(), Some(&done), &vec![], 10);
    assert_eq!(filled.status, "reconciling");
    assert_eq!(filled.expected_long_quantity.map(f), Some(10.0));
    assert_eq!(filled.expected_short_quantity.map(f), Some(10.0));
    let gone = monitor_entry(trade.clone(), None, &vec![], 10);
    assert_eq!(gone.error.unwrap(), "entry task disappeared");
    let held = monitor_entry(trade.clone(), None, &vec![position("DEXE", 0.0)], 10);
    assert_eq!(held.status, "active");
    assert_eq!(held.position_id.unwrap(), "live-DEXE");
    let mut refused = task("task", "DEXE", "cancelled");
    assert_eq!(
        monitor_entry(trade.clone(), Some(&refused), &vec![], 10).error.unwrap(),
        "entry task cancelled"
    );
    refused.error = Some("stopped".into());
    assert_eq!(monitor_entry(trade, Some(&refused), &vec![], 10).error.unwrap(), "stopped");
}

fn reconciling() -> SpreadStrategyTrade {
    let trade = on_entry_task(started(7), Ok("task".into()), 9);
    let mut done = task("task", "DEXE", "completed");
    done.logs = vec![log("long", 10.0), log("short", 10.0)];
    monitor_entry(trade, Some(&done), &vec![], 10)
}

#[test]
fn a_trade_is_active_once_its_position_matched_twice() {
    let held = vec![position("DEXE", 0.0)];
    let (first, notice) = monitor_reconciliation(reconciling(), &held, 20);
    assert_eq!(first.status, "reconciling");
    assert!(notice.is_none());
    let mut half = vec![position("DEXE", 0.0)];
    half[0].short.quantity = d(5.0);
    let (broken, _) = monitor_reconciliation(first.clone(), &half, 30);
    assert_eq!(broken.reconciliation_stable_snapshots, 0);
    let (second, notice) = monitor_reconciliation(first, &held, 30);
    assert_eq!(second.status, "active");
    assert_eq!(second.opened_at, Some(30));
    assert_eq!(
        notice.unwrap(),
        "🟢 <b>价差策略入场完成 · DEXE</b>\nLONG Binance · 10.00000000 @ $10.00000000\nSHORT Bybit · 10.00000000 @ $10.00000000\n每腿名义价值：约 $100.00 · 杠杆：5×\n信号价差：+1.500% · 加权偏离：+1.200%"
    );
}

#[test]
fn a_position_that_does_not_show_is_reported() {
    let trade = reconciling();
    let service = SpreadStrategyService::new(Some(trade.clone()), true);
    assert_eq!(service.tick(10 + 5_999), StrategyTick::Reconcile { authoritative: false });
    assert_eq!(service.tick(10 + 6_000), StrategyTick::Reconcile { authoritative: true });
    let (late, _) = monitor_reconciliation(trade, &vec![], 10 + 30_000);
    assert!(late.reconciliation_rest_refreshed);
    assert_eq!(
        late.error.unwrap(),
        "waiting for authoritative position reconciliation: expected long 10.00000000, short 10.00000000; actual long 0.00000000, short 0.00000000"
    );
}

fn active() -> SpreadStrategyTrade {
    let held = vec![position("DEXE", 0.0)];
    let (first, _) = monitor_reconciliation(reconciling(), &held, 20);
    monitor_reconciliation(first, &held, 30).0
}

#[test]
fn a_held_trade_leaves_at_a_target_that_falls_every_hour() {
    let hour = 60 * 60 * 1_000;
    let held = vec![position("DEXE", 0.001)];
    let (trade, request) = match monitor_active(active(), &held, None, 30 + hour) {
        ActiveStep::Leave(trade, request) => (trade, request),
        _ => panic!("the trade leaves"),
    };
    assert_eq!(trade.target_hour, Some(1));
    assert!((f(request.minimum_roi.unwrap()) - 0.010).abs() < 1e-12);
    assert!(request.close_all && request.no_loss_guard);
    let trade = on_exit_task(trade, "exit".into());
    let running = task("exit", "DEXE", "running");
    assert!(matches!(monitor_active(trade.clone(), &held, Some(&running), 31 + hour), ActiveStep::Keep(_)));
    assert!(matches!(monitor_active(trade.clone(), &held, Some(&running), 30 + 2 * hour), ActiveStep::Retarget(_)));
    match monitor_active(trade, &held, Some(&task("exit", "DEXE", "completed")), 31 + hour) {
        ActiveStep::Finished(trade, notice) => {
            assert_eq!(trade.exit_reason.unwrap(), "take_profit");
            assert_eq!(
                notice.unwrap(),
                "🔴 <b>价差策略退场完成 · DEXE</b>\n退出原因：止盈\n最后 ROI：+0.100%\n持有时间：1 小时 0 分钟"
            );
        }
        _ => panic!("the trade is over"),
    }
}

#[test]
fn losses_are_cut_and_no_trade_is_held_for_more_than_ten_hours() {
    let losing = vec![position("DEXE", -0.02)];
    match monitor_active(active(), &losing, None, 40) {
        ActiveStep::MarketExit(trade) => assert_eq!(trade.exit_reason.unwrap(), "stop_loss"),
        _ => panic!("the loss is cut"),
    }
    let held = vec![position("DEXE", 0.0)];
    match monitor_active(active(), &held, None, 30 + 10 * 60 * 60 * 1_000) {
        ActiveStep::MarketExit(trade) => assert_eq!(trade.exit_reason.unwrap(), "max_hold_time"),
        _ => panic!("the trade is given up"),
    }
    assert!(matches!(monitor_active(active(), &vec![], None, 40), ActiveStep::Finished(_, Some(_))));
}

#[test]
fn leaving_at_the_market_closes_what_is_held() {
    let losing = vec![position("DEXE", -0.02)];
    let trade = match monitor_active(active(), &losing, None, 40) {
        ActiveStep::MarketExit(trade) => on_exit_task(trade, "exit".into()),
        _ => panic!("the loss is cut"),
    };
    assert!(matches!(monitor_market_exit(trade.clone(), true, &losing, 50), MarketExitStep::Wait));
    let closing = match monitor_market_exit(trade.clone(), false, &losing, 50) {
        MarketExitStep::Close(trade, id) => {
            assert_eq!(id, "live-DEXE");
            trade
        }
        _ => panic!("the position is closed"),
    };
    assert!(closing.exit_task_id.is_none());
    let (closed, notice) = on_close(closing.clone(), None, 60);
    assert_eq!(closed.status, "closed");
    assert_eq!(closed.exit_reason.unwrap(), "stop_loss");
    assert!(notice.is_some());
    let (failed, notice) = on_close(closing, Some("refused".into()), 60);
    assert_eq!(failed.error.unwrap(), "market exit failed: refused");
    assert!(notice.is_none());
    assert!(matches!(monitor_market_exit(trade, false, &vec![], 50), MarketExitStep::Finished(_, Some(_))));
}

#[test]
fn no_trade_follows_another_within_a_quarter_of_an_hour() {
    let trade = on_entry_task(started(7), Err("no".into()), 1_000);
    let mut service = SpreadStrategyService::new(Some(trade), true);
    assert_eq!(service.tick(1_000 + 899_999), StrategyTick::Wait);
    assert_eq!(service.tick(1_000 + 900_000), StrategyTick::Clear);
    service.replace_state(None);
    assert_eq!(service.tick(1_000 + 900_000), StrategyTick::Scan);
}

#[test]
fn reasons_have_labels() {
    assert_eq!(exit_reason_label("take_profit"), "止盈");
    assert_eq!(exit_reason_label("stop_loss"), "止损");
    assert_eq!(exit_reason_label("max_hold_time"), "达到最长持有时间");
    assert_eq!(exit_reason_label("position_closed"), "仓位已在外部关闭");
    assert_eq!(exit_reason_label("anything"), "市价退出");
}

#[test]
fn each_check_of_an_hour_runs_once_and_in_its_time() {
    let hour = 60 * 60 * 1_000;
    let mut service = FundingCycleStrategyService::new(None, true);
    assert_eq!(service.tick(5 * hour), CycleCheck::Nothing);
    assert_eq!(service.tick(5 * hour + 1_000), CycleCheck::Exit);
    service.begin_exit_check(5);
    assert_eq!(service.tick(5 * hour + 2_000), CycleCheck::Nothing);
    assert_eq!(service.tick(5 * hour + 45_000), CycleCheck::Nothing);
    assert_eq!(service.tick(5 * hour + 60_000), CycleCheck::Entry);
    service.begin_entry_check(5);
    assert_eq!(service.tick(5 * hour + 61_000), CycleCheck::Nothing);
    assert_eq!(service.tick(6 * hour + 14_999), CycleCheck::Exit);
    assert_eq!(service.tick(6 * hour + 15_000), CycleCheck::Nothing);
    assert_eq!(service.tick(-hour + 1_000), CycleCheck::Exit);
}

#[test]
fn a_position_is_left_when_the_next_hour_pays_too_little() {
    let mut service = FundingCycleStrategyService::new(None, true);
    let held = position("DEXE", 0.0);
    assert!(matches!(service.check_exit(None, d(0.0), 9), ExitVerdict::Flat));
    assert!(matches!(service.check_exit(Some(&held), d(1.0 / 8760.0), 9), ExitVerdict::Hold));
    assert_eq!(service.status().last_action.unwrap(), "持仓方向 APY 100.00% ≥ 100%，继续持有");
    assert!(matches!(service.check_exit(Some(&held), d(0.0001), 9), ExitVerdict::Leave));
    assert_eq!(service.status().signal_direction.unwrap(), "LONG Binance / SHORT Bybit");
    let request = FundingCycleStrategyService::exit_request(&held);
    assert_eq!(f(request.order_notional_usdt), 10.0);
    assert!(request.close_all && !request.no_loss_guard);
    let notice = service.on_exit_started(5, "exit".into(), d(0.0001), d(100.0), 10);
    assert_eq!(
        notice,
        "🔴 <b>DEXE 周期策略退出</b>\n持仓方向小时收益：+0.0100%\nAPY：+87.60%\n批量市价全平：每单约 $10.00 / 3s"
    );
    let hour = 60 * 60 * 1_000;
    assert_eq!(service.tick(5 * hour + 45_000), CycleCheck::Cleanup);
    assert!(service.refresh_exit_task(&task("exit", "DEXE", "running")).is_none());
    assert_eq!(
        service.refresh_exit_task(&task("exit", "DEXE", "completed")).unwrap(),
        "✅ <b>DEXE 周期策略批量退场完成</b>\n每腿累计平仓：约 $100.00\n将在整点 +45s 再次检查残仓"
    );
    assert_eq!(service.status().state, "exit_verifying");
    service.cleanup_exit(5, Some(d(12.5)), 11);
    assert_eq!(service.status().last_action.unwrap(), "整点 +45s 检测到残仓 $12.50，已市价全平");
    assert_eq!(service.tick(5 * hour + 46_000), CycleCheck::Nothing);
}

#[test]
fn an_entry_needs_more_than_two_tenths_of_a_percent_an_hour() {
    let mut service = FundingCycleStrategyService::new(None, true);
    assert!(!service.check_entry(&vec![position("DEXE", 0.0)], &vec![], 9));
    assert!(!service.check_entry(&vec![], &vec![task("a", "AAA", "queued")], 9));
    assert!(service.check_entry(&vec![], &vec![task("a", "AAA", "completed")], 9));
    assert!(service.judge_entry(None, 9).is_none());
    let mut poor = offer("DEXE", 0.0);
    poor.funding_per_hour = d(0.002);
    assert!(service.judge_entry(Some(&poor), 9).is_none());
    assert_eq!(service.status().last_action.unwrap(), "小时收益 0.2000% ≤ 0.2%，不入场");
    let rich = offer("DEXE", 0.0);
    let request = service.judge_entry(Some(&rich), 9).unwrap();
    assert_eq!(f(request.target_notional_usdt), 5_000.0);
    assert_eq!(f(request.order_notional_usdt), 100.0);
    assert_eq!(f(request.interval_seconds), 30.0);
    let notice = service.on_entry_started(&rich, "entry".into(), 10);
    assert_eq!(
        notice,
        "🟢 <b>DEXE 周期策略入场</b>\nLONG Binance / SHORT Bybit\n下一整点小时收益：+0.3000%\n目标：每腿 $5000 · 5×\n批量市价：$100 / 30s"
    );
    let mut failed = task("entry", "DEXE", "failed");
    failed.error = Some("no balance".into());
    assert_eq!(
        service.refresh_entry_task(&failed).unwrap(),
        "⚠️ <b>DEXE 周期策略入场失败</b>\nno balance"
    );
    assert_eq!(service.status().state, "waiting");
}

#[test]
fn only_the_tasks_of_the_token_are_stopped() {
    let tasks = vec![
        task("a", "DEXE", "running"),
        task("b", "AAA", "running"),
        task("c", "DEXE", "cancelling"),
        task("d", "DEXE", "completed"),
        task("e", "DEXE", "queued"),
    ];
    assert_eq!(stop_active_symbol_tasks(&tasks), vec!["a", "e"]);
}

#[test]
fn the_wait_for_the_tasks_of_the_token_ends_after_forty_looks() {
    let busy = vec![task("a", "DEXE", "cancelling")];
    let done = vec![task("a", "DEXE", "cancelled"), task("b", "AAA", "running")];
    assert_eq!(stop_verdict(&busy, &done, 1), Some(true));
    assert_eq!(stop_verdict(&busy, &busy, 39), None);
    assert_eq!(stop_verdict(&busy, &busy, 40), Some(false));
    assert_eq!(stop_verdict(&done, &busy, 40), Some(true));
    assert_eq!(stop_verdict(&busy, &done, 40), Some(true));
}

#[test]
fn an_exit_goes_on_only_when_the_tasks_stopped_and_the_position_is_there() {
    let mut service = FundingCycleStrategyService::new(None, true);
    let held = position("DEXE", 0.0);
    assert!(service.confirm_exit(false, Some(&held), 9).is_none());
    assert_eq!(service.status().error.unwrap(), "退出信号已触发，但 DEXE 批量任务未能及时停止");
    assert!(service.confirm_exit(true, None, 9).is_none());
    assert_eq!(service.status().last_action.unwrap(), "退出信号触发时仓位已经关闭");
    assert_eq!((service.status().state.as_str(), service.status().last_action_at), ("waiting", Some(9)));
    let request = service.confirm_exit(true, Some(&held), 10).unwrap();
    assert_eq!(request.position_id, held.id);
    assert_eq!((f(request.target_notional_usdt), f(request.order_notional_usdt)), (f(held.notional_usdt), 10.0));
    assert_eq!(service.status().last_action_at, Some(9));
}

#[test]
fn the_task_of_an_exit_is_cancelled_and_waited_for_twenty_times() {
    let mut service = FundingCycleStrategyService::new(None, true);
    let (running, over) = (task("exit", "DEXE", "running"), task("exit", "DEXE", "cancelled"));
    assert_eq!(service.cleanup_cancels(Some(&running)), None);
    service.on_exit_started(5, "exit".into(), d(0.0001), d(100.0), 10);
    assert_eq!(service.cleanup_cancels(Some(&running)), Some("exit".to_string()));
    assert_eq!(service.cleanup_cancels(Some(&over)), None);
    assert_eq!(service.cleanup_cancels(None), None);
    assert!(!cleanup_settled(Some(&running), 19) && cleanup_settled(Some(&running), 20));
    assert!(cleanup_settled(Some(&over), 1));
    assert!(!cleanup_settled(None, 1) && cleanup_settled(None, 20));
}

#[test]
fn active_tasks_are_told_apart_by_token() {
    let other = vec![task("a", "AAA", "running"), task("b", "DEXE", "completed")];
    assert!(!has_active_symbol_task(&other));
    assert!(has_active_batch_task(&other));
    let own = vec![task("a", "AAA", "completed"), task("b", "DEXE", "queued")];
    assert!(has_active_symbol_task(&own));
    assert!(has_active_batch_task(&own));
    let none: Vec<BatchIncreaseTask> = Vec::new();
    assert!(!has_active_symbol_task(&none));
    assert!(!has_active_batch_task(&none));
}

#[test]
fn an_error_is_kept_until_the_next_check() {
    let mut service = FundingCycleStrategyService::new(None, true);
    service.record_error("no quotes".to_string());
    assert_eq!(service.status().error, Some("no quotes".to_string()));
    service.begin_exit_check(7);
    assert_eq!(service.status().error, None);
    assert_eq!(service.status().last_exit_check_hour, Some(7));
}

#[test]
fn the_target_never_rises_while_a_trade_is_held() {
    for deviation in [0.05, 0.012, 0.001, 0.0, -0.3, f64::INFINITY, f64::NAN] {
        let mut last = f(take_profit_target(d(deviation), -1));
        for hours in 0..8 {
            let next = f(take_profit_target(d(deviation), hours));
            assert!(0.0 <= next && next <= last);
            last = next;
        }
        assert_eq!(last, 0.0);
    }
}

#[test]
fn a_strategy_that_is_off_says_so() {
    let service = FundingCycleStrategyService::new(None, false);
    assert!(!service.spawn());
    assert_eq!(service.status().state, "disabled");
    let on = FundingCycleStrategyService::new(Some(service.status()), true);
    assert!(on.status().enabled);
    assert_eq!(on.status().state, "disabled");
}
