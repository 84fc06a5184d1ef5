//! What the bot asks before it trades, and what it does once a button confirms
//! it.

use crate::models::{BatchIncreaseRequest, BatchReduceRequest, OpenTradeRequest, Opportunity, Position};
use crate::num::constants::{HALF, HUNDRED, MILLION, QUARTER, TEN, TWO, ZERO};
use crate::num::decimal::{fixed, fixed_text};
use crate::num::rounding::BINADE;
use crate::num::Double;
use crate::telegram::replies::{bar, reply_with_two, route_mark, route_of, two_buttons, with_bar, Reply};
use crate::telegram::text::{escaped, html, share, share_or, show_share, show_share_or};
use crate::telegram::words::{
    answers, batch_fault, between, close_target, leverage_ok, means_all, number_in, parse_close_target, parse_u8,
    plain_number, small_number, validate_batch_settings, Amount, Word,
};
use crate::text::{digits, digits_text, join, same_ignoring_case};
use vstd::prelude::*;
use vstd::string::StringExecFns;

verus! {

/// Whether an answer is a question, or the fault that stands in its way.
pub open spec fn asks(
    r: Result<Reply, String>,
    fault: Option<Seq<char>>,
    text: Seq<char>,
    yes: (Seq<char>, Seq<char>),
    no: (Seq<char>, Seq<char>),
) -> bool {
    match fault {
        Some(f) => r matches Err(e) && e@ == f,
        None => r matches Ok(reply) && two_buttons(reply, text, yes, no),
    }
}

/// The question before an opening.
pub open spec fn open_question(offer: Opportunity, notional: Double, leverage: u8) -> Seq<char> {
    "⚠️ 确认开仓？\n<b>"@ + escaped(offer.token.symbol@) + "</b> · 每腿 $"@ + fixed_text(notional, 2) + " · "@ + digits(leverage as nat) + "×\n🟢 LONG "@ + escaped(offer.long.exchange@) + "\n🔴 SHORT "@ + escaped(offer.short.exchange@)
}

fn write_open_question(offer: &Opportunity, notional: Double, leverage: u8) -> (s: String)
    ensures
        s@ == open_question(*offer, notional, leverage),
{
    let mut s = join("⚠️ 确认开仓？\n<b>", html(offer.token.symbol.as_str()).as_str());
    s.append("</b> · 每腿 $");
    s.append(fixed(notional, 2).as_str());
    s.append(" · ");
    s.append(digits_text(leverage as u128).as_str());
    s.append("×\n🟢 LONG ");
    s.append(html(offer.long.exchange.as_str()).as_str());
    s.append("\n🔴 SHORT ");
    s.append(html(offer.short.exchange.as_str()).as_str());
    s
}

/// What is wrong with an opening.
pub open spec fn open_fault(notional: Double, leverage: u8) -> Option<Seq<char>> {
    if notional.lt_spec(Double { bits: TEN }) || !leverage_ok(leverage) {
        Some("金额至少 10 USDT，杠杆范围 1–20×"@)
    } else {
        None
    }
}

/// What the button that confirms an opening sends.
pub open spec fn open_mark(offer: Opportunity, notional: Seq<char>, leverage: u8) -> Seq<char> {
    bar("ox"@, bar(route_mark(offer), bar(notional, digits(leverage as nat))))
}

/// Asks before an opening.
pub fn confirm_open(offer: &Opportunity, notional: &Amount, leverage: u8) -> (r: Result<Reply, String>)
    ensures
        asks(
            r,
            open_fault(notional.value, leverage),
            open_question(*offer, notional.value, leverage),
            ("确认开仓"@, open_mark(*offer, notional.shown@, leverage)),
            ("取消"@, bar("o"@, route_mark(*offer))),
        ),
{
    if notional.value.lt(Double { bits: TEN }) || leverage < 1 || leverage > 20 {
        return Err("金额至少 10 USDT，杠杆范围 1–20×".to_owned());
    }
    let route = route_of(offer);
    let sizes = with_bar(notional.shown.as_str(), digits_text(leverage as u128).as_str());
    let yes = with_bar("ox", with_bar(route.as_str(), sizes.as_str()).as_str());
    let no = with_bar("o", route.as_str());
    Ok(
        reply_with_two(
            write_open_question(offer, notional.value, leverage),
            "确认开仓",
            yes.as_str(),
            "取消",
            no.as_str(),
        ),
    )
}

/// How many batches a task takes.
pub open spec fn batches(target: Double, order: Double) -> nat {
    target.div_spec(order).ceil_spec().saturated(BINADE as nat)
}

fn count_batches(target: Double, order: Double) -> (n: u64)
    ensures
        n == batches(target, order),
{
    target.div(order).ceil().to_whole(BINADE)
}

/// The question before an opening in batches.
pub open spec fn batch_open_question(offer: Opportunity, target: Double, order: Double, interval: Double, leverage: u8) -> Seq<char> {
    "⚠️ 确认批量加仓？\n<b>"@ + escaped(offer.token.symbol@) + "</b> · 每腿目标 $"@ + fixed_text(target, 2) + " · "@ + digits(leverage as nat) + "×\n每单最多 $"@ + fixed_text(order, 2) + " · 间隔 "@ + fixed_text(interval, 1) + "s\n预计 "@ + digits(batches(target, order)) + " 批\n🟢 LONG "@ + escaped(offer.long.exchange@) + "\n🔴 SHORT "@ + escaped(offer.short.exchange@)
}

fn write_batch_open_question(offer: &Opportunity, target: Double, order: Double, interval: Double, leverage: u8) -> (s: String)
    ensures
        s@ == batch_open_question(*offer, target, order, interval, leverage),
{
    let mut s = join("⚠️ 确认批量加仓？\n<b>", html(offer.token.symbol.as_str()).as_str());
    s.append("</b> · 每腿目标 $");
    s.append(fixed(target, 2).as_str());
    s.append(" · ");
    s.append(digits_text(leverage as u128).as_str());
    s.append("×\n每单最多 $");
    s.append(fixed(order, 2).as_str());
    s.append(" · 间隔 ");
    s.append(fixed(interval, 1).as_str());
    s.append("s\n预计 ");
    s.append(digits_text(count_batches(target, order) as u128).as_str());
    s.append(" 批\n🟢 LONG ");
    s.append(html(offer.long.exchange.as_str()).as_str());
    s.append("\n🔴 SHORT ");
    s.append(html(offer.short.exchange.as_str()).as_str());
    s
}

/// What is wrong with an opening in batches.
pub open spec fn batch_open_fault(target: Double, order: Double, interval: Double, leverage: u8) -> Option<Seq<char>> {
    match batch_fault(target, order, interval) {
        Some(fault) => Some(fault),
        None => if leverage_ok(leverage) {
            None
        } else {
            Some("杠杆范围为 1–20×"@)
        },
    }
}

/// What the button that confirms an opening in batches sends.
pub open spec fn batch_open_mark(
    offer: Opportunity,
    target: Seq<char>,
    order: Seq<char>,
    interval: Seq<char>,
    leverage: u8,
) -> Seq<char> {
    bar("box"@, bar(route_mark(offer), bar(target, bar(order, bar(interval, digits(leverage as nat))))))
}

/// Asks before an opening in batches.
pub fn confirm_batch_open(offer: &Opportunity, target: &Amount, order: &Amount, interval: &Amount, leverage: u8) -> (r:
    Result<Reply, String>)
    ensures
        asks(
            r,
            batch_open_fault(target.value, order.value, interval.value, leverage),
            batch_open_question(*offer, target.value, order.value, interval.value, leverage),
            ("确认启动"@, batch_open_mark(*offer, target.shown@, order.shown@, interval.shown@, leverage)),
            ("取消"@, bar("o"@, route_mark(*offer))),
        ),
{
    if let Err(e) = validate_batch_settings(target.value, order.value, interval.value) {
        return Err(e);
    }
    if leverage < 1 || leverage > 20 {
        return Err("杠杆范围为 1–20×".to_owned());
    }
    let route = route_of(offer);
    let last = with_bar(interval.shown.as_str(), digits_text(leverage as u128).as_str());
    let sizes = with_bar(target.shown.as_str(), with_bar(order.shown.as_str(), last.as_str()).as_str());
    let yes = with_bar("box", with_bar(route.as_str(), sizes.as_str()).as_str());
    let no = with_bar("o", route.as_str());
    Ok(
        reply_with_two(
            write_batch_open_question(offer, target.value, order.value, interval.value, leverage),
            "确认启动",
            yes.as_str(),
            "取消",
            no.as_str(),
        ),
    )
}

/// The question before a guarded opening.
pub open spec fn guard_open_question(offer: Opportunity, target: Double, leverage: u8, threshold: Double) -> Seq<char> {
    "⚠️ 确认保价差限价开仓？\n<b>"@ + escaped(offer.token.symbol@) + "</b> · 每腿目标 $"@ + fixed_text(target, 2) + " · "@ + digits(leverage as nat) + "×\n仅当累计成交价差满足 "@ + share(threshold, 4) + "% 门槛时提交 IOC 限价单；单腿每次最多 $50，成交差额立即市价补腿，不利价差由后续 10 批分摊追回\n当前参考价差 "@ + share(offer.spread, 4) + "%"@
}

fn write_guard_open_question(offer: &Opportunity, target: Double, leverage: u8, threshold: Double) -> (s: String)
    ensures
        s@ == guard_open_question(*offer, target, leverage, threshold),
{
    let mut s = join("⚠️ 确认保价差限价开仓？\n<b>", html(offer.token.symbol.as_str()).as_str());
    s.append("</b> · 每腿目标 $");
    s.append(fixed(target, 2).as_str());
    s.append(" · ");
    s.append(digits_text(leverage as u128).as_str());
    s.append("×\n仅当累计成交价差满足 ");
    s.append(show_share(threshold, 4).as_str());
    s.append("% 门槛时提交 IOC 限价单；单腿每次最多 $50，成交差额立即市价补腿，不利价差由后续 10 批分摊追回\n当前参考价差 ");
    s.append(show_share(offer.spread, 4).as_str());
    s.append("%");
    s
}

/// What is wrong with a guarded opening.
pub open spec fn guard_open_fault(target: Double, leverage: u8) -> Option<Seq<char>> {
    if !between(target, Double { bits: TEN }, Double { bits: MILLION }) {
        Some("目标金额范围为 10–1,000,000 USDT"@)
    } else if !leverage_ok(leverage) {
        Some("杠杆范围为 1–20×"@)
    } else {
        None
    }
}

/// What the button that confirms a guarded opening sends.
pub open spec fn guard_open_mark(offer: Opportunity, target: Seq<char>, leverage: u8, threshold: Seq<char>) -> Seq<
    char,
> {
    bar("gox"@, bar(route_mark(offer), bar(target, bar(digits(leverage as nat), threshold))))
}

/// Asks before a guarded opening.
pub fn confirm_guard_open(offer: &Opportunity, target: &Amount, leverage: u8, threshold: &Amount) -> (r: Result<
    Reply,
    String,
>)
    ensures
        asks(
            r,
            guard_open_fault(target.value, leverage),
            guard_open_question(*offer, target.value, leverage, threshold.value),
            ("确认启动"@, guard_open_mark(*offer, target.shown@, leverage, threshold.shown@)),
            ("取消"@, bar("o"@, route_mark(*offer))),
        ),
{
    if !(target.value.ge(Double { bits: TEN }) && target.value.le(Double { bits: MILLION })) {
        return Err("目标金额范围为 10–1,000,000 USDT".to_owned());
    }
    if leverage < 1 || leverage > 20 {
        return Err("杠杆范围为 1–20×".to_owned());
    }
    let route = route_of(offer);
    let last = with_bar(digits_text(leverage as u128).as_str(), threshold.shown.as_str());
    let sizes = with_bar(target.shown.as_str(), last.as_str());
    let yes = with_bar("gox", with_bar(route.as_str(), sizes.as_str()).as_str());
    let no = with_bar("o", route.as_str());
    Ok(
        reply_with_two(
            write_guard_open_question(offer, target.value, leverage, threshold.value),
            "确认启动",
            yes.as_str(),
            "取消",
            no.as_str(),
        ),
    )
}

/// How the size of a reduction is shown.
pub open spec fn target_text(target: Double, all: bool) -> Seq<char> {
    if all {
        "ALL（全平）"@
    } else {
        "$"@ + fixed_text(target, 2)
    }
}

fn write_target(target: Double, all: bool) -> (s: String)
    ensures
        s@ == target_text(target, all),
{
    if all {
        "ALL（全平）".to_owned()
    } else {
        join("$", fixed(target, 2).as_str())
    }
}

/// How a button names the size of a reduction.
pub open spec fn target_mark(word: Word) -> Seq<char> {
    if means_all(word) || word.number is None {
        "all"@
    } else {
        (word.number->0).shown@
    }
}

fn mark_target(word: &Word) -> (s: String)
    ensures
        s@ == target_mark(*word),
{
    if same_ignoring_case(word.text.as_str(), "all") {
        return "all".to_owned();
    }
    match &word.number {
        Some(a) => a.shown.clone(),
        None => "all".to_owned(),
    }
}

/// The question before a reduction in batches.
pub open spec fn batch_reduce_question(position: Position, target: Double, all: bool, order: Double, interval: Double) -> Seq<char> {
    "⚠️ 确认批量减仓？\n<b>"@ + escaped(position.token@) + "</b> · 每腿目标 "@ + target_text(target, all) + "\n每单最多 $"@ + fixed_text(order, 2) + " · 间隔 "@ + fixed_text(interval, 1) + "s\n预计 "@ + digits(batches(target, order)) + " 批\n当前每腿约 $"@ + fixed_text(position.notional_usdt, 2)
}

fn write_batch_reduce_question(position: &Position, target: Double, all: bool, order: Double, interval: Double) -> (s: String)
    ensures
        s@ == batch_reduce_question(*position, target, all, order, interval),
{
    let mut s = join("⚠️ 确认批量减仓？\n<b>", html(position.token.as_str()).as_str());
    s.append("</b> · 每腿目标 ");
    s.append(write_target(target, all).as_str());
    s.append("\n每单最多 $");
    s.append(fixed(order, 2).as_str());
    s.append(" · 间隔 ");
    s.append(fixed(interval, 1).as_str());
    s.append("s\n预计 ");
    s.append(digits_text(count_batches(target, order) as u128).as_str());
    s.append(" 批\n当前每腿约 $");
    s.append(fixed(position.notional_usdt, 2).as_str());
    s
}

/// What is wrong with a reduction in batches.
pub open spec fn batch_reduce_fault(word: Word, position: Position, order: Double, interval: Double) -> Option<Seq<char>> {
    match close_target(word, position) {
        Err(fault) => Some(fault),
        Ok(target) => batch_fault(target.0, order, interval),
    }
}

/// The size of a reduction.
pub open spec fn sized(word: Word, position: Position) -> Double {
    if means_all(word) {
        position.notional_usdt
    } else {
        (word.number->0).value
    }
}

/// Asks before a reduction in batches.
pub fn confirm_batch_reduce(position: &Position, target: &Word, order: &Amount, interval: &Amount) -> (r: Result<
    Reply,
    String,
>)
    ensures
        asks(
            r,
            batch_reduce_fault(*target, *position, order.value, interval.value),
            batch_reduce_question(
                *position,
                sized(*target, *position),
                means_all(*target),
                order.value,
                interval.value,
            ),
            (
                "确认启动"@,
                bar(
                    "brx"@,
                    bar(position.id@, bar(target_mark(*target), bar(order.shown@, interval.shown@))),
                ),
            ),
            ("取消"@, bar("p"@, position.id@)),
        ),
{
    let (size, all) = match parse_close_target(target, position) {
        Ok(t) => t,
        Err(e) => return Err(e),
    };
    if let Err(e) = validate_batch_settings(size, order.value, interval.value) {
        return Err(e);
    }
    let pace = with_bar(order.shown.as_str(), interval.shown.as_str());
    let sizes = with_bar(mark_target(target).as_str(), pace.as_str());
    let yes = with_bar("brx", with_bar(position.id.as_str(), sizes.as_str()).as_str());
    let no = with_bar("p", position.id.as_str());
    Ok(
        reply_with_two(
            write_batch_reduce_question(position, size, all, order.value, interval.value),
            "确认启动",
            yes.as_str(),
            "取消",
            no.as_str(),
        ),
    )
}

/// The most that can be closed without a loss while something is left.
pub open spec fn most_closed(position: Position) -> Double {
    position.notional_usdt.sub_spec(Double { bits: TEN }).max_spec(Double { bits: ZERO })
}

/// What is wrong with a closing without a loss.
pub open spec fn no_loss_fault(word: Word, position: Position) -> Option<Seq<char>> {
    match close_target(word, position) {
        Err(fault) => Some(fault),
        Ok(target) => if !target.1 && !between(target.0, Double { bits: TEN }, most_closed(position)) {
            Some(
                "目标金额必须在 10 与 "@ + fixed_text(most_closed(position), 2)
                    + " USDT 之间；需保留至少 10 USDT，全部退出请使用普通平仓"@,
            )
        } else {
            None
        },
    }
}

/// How the threshold of a closing is shown.
pub open spec fn threshold_value(threshold: Option<Amount>) -> Option<Double> {
    match threshold {
        Some(a) => Some(a.value),
        None => None,
    }
}

/// The question before a closing without a loss.
pub open spec fn no_loss_question(position: Position, target: Double, all: bool, threshold: Option<Double>) -> Seq<char> {
    "⚠️ 确认启动保价差且不亏限价平仓？\n<b>"@ + escaped(position.token@) + "</b> · 每腿目标 "@ + target_text(target, all) + "\n最高平仓价差："@ + share_or(threshold, 4, "启动时当前价差"@) + "\n同时满足价差门槛和累计仓位平仓盈亏不为负时下单；不包含资金费和手续费"@
}

fn write_no_loss_question(position: &Position, target: Double, all: bool, threshold: Option<Double>) -> (s: String)
    ensures
        s@ == no_loss_question(*position, target, all, threshold),
{
    let mut s = join("⚠️ 确认启动保价差且不亏限价平仓？\n<b>", html(position.token.as_str()).as_str());
    s.append("</b> · 每腿目标 ");
    s.append(write_target(target, all).as_str());
    s.append("\n最高平仓价差：");
    s.append(show_share_or(threshold, 4, "启动时当前价差").as_str());
    s.append("\n同时满足价差门槛和累计仓位平仓盈亏不为负时下单；不包含资金费和手续费");
    s
}

/// What the button that confirms a closing without a loss sends.
pub open spec fn no_loss_mark(position: Position, word: Word, threshold: Option<Amount>) -> Seq<char> {
    let size = target_mark(word);
    bar(
        "nlx"@,
        bar(
            position.id@,
            match threshold {
                Some(a) => bar(size, a.shown@),
                None => size,
            },
        ),
    )
}

/// Asks before a closing without a loss.
pub fn confirm_no_loss_close(position: &Position, target: &Word, threshold: &Option<Amount>) -> (r: Result<
    Reply,
    String,
>)
    ensures
        asks(
            r,
            no_loss_fault(*target, *position),
            no_loss_question(
                *position,
                sized(*target, *position),
                means_all(*target),
                threshold_value(*threshold),
            ),
            ("确认启动"@, no_loss_mark(*position, *target, *threshold)),
            ("取消"@, bar("p"@, position.id@)),
        ),
{
    let (size, all) = match parse_close_target(target, position) {
        Ok(t) => t,
        Err(e) => return Err(e),
    };
    let most = position.notional_usdt.sub(Double { bits: TEN }).max(Double { bits: ZERO });
    if !all && !(size.ge(Double { bits: TEN }) && size.le(most)) {
        let mut e = join("目标金额必须在 10 与 ", fixed(most, 2).as_str());
        e.append(" USDT 之间；需保留至少 10 USDT，全部退出请使用普通平仓");
        return Err(e);
    }
    let named = mark_target(target);
    let (value, sizes) = match threshold {
        Some(a) => (Some(a.value), with_bar(named.as_str(), a.shown.as_str())),
        None => (None, named),
    };
    let yes = with_bar("nlx", with_bar(position.id.as_str(), sizes.as_str()).as_str());
    let no = with_bar("p", position.id.as_str());
    Ok(
        reply_with_two(
            write_no_loss_question(position, size, all, value),
            "确认启动",
            yes.as_str(),
            "取消",
            no.as_str(),
        ),
    )
}

/// The question before a rule is set.
pub open spec fn auto_close_question(position: Position, threshold: Double, order: Double, interval: Double) -> Seq<char> {
    "⚠️ 确认启用自动平仓？\n<b>"@ + escaped(position.token@) + "</b>\nAPY 低于 "@ + fixed_text(threshold, 1) + "% 时触发\n每单 $"@ + fixed_text(order, 2) + " · 间隔 "@ + fixed_text(interval, 1) + "s · 直到全部平仓"@
}

fn write_auto_close_question(position: &Position, threshold: Double, order: Double, interval: Double) -> (s: String)
    ensures
        s@ == auto_close_question(*position, threshold, order, interval),
{
    let mut s = join("⚠️ 确认启用自动平仓？\n<b>", html(position.token.as_str()).as_str());
    s.append("</b>\nAPY 低于 ");
    s.append(fixed(threshold, 1).as_str());
    s.append("% 时触发\n每单 $");
    s.append(fixed(order, 2).as_str());
    s.append(" · 间隔 ");
    s.append(fixed(interval, 1).as_str());
    s.append("s · 直到全部平仓");
    s
}

/// What is wrong with a rule.
pub open spec fn auto_close_fault(order: Double, interval: Double) -> Option<Seq<char>> {
    if order.lt_spec(Double { bits: TEN }) || interval.lt_spec(Double { bits: HALF }) {
        Some("单笔金额至少 10 USDT，间隔至少 0.5 秒"@)
    } else {
        None
    }
}

/// Asks before a rule is set.
pub fn confirm_auto_close(position: &Position, threshold: &Amount, order: &Amount, interval: &Amount) -> (r: Result<
    Reply,
    String,
>)
    ensures
        asks(
            r,
            auto_close_fault(order.value, interval.value),
            auto_close_question(*position, threshold.value, order.value, interval.value),
            (
                "确认启用"@,
                bar(
                    "aux"@,
                    bar(position.id@, bar(threshold.shown@, bar(order.shown@, interval.shown@))),
                ),
            ),
            ("取消"@, bar("p"@, position.id@)),
        ),
{
    if order.value.lt(Double { bits: TEN }) || interval.value.lt(Double { bits: HALF }) {
        return Err("单笔金额至少 10 USDT，间隔至少 0.5 秒".to_owned());
    }
    let pace = with_bar(order.shown.as_str(), interval.shown.as_str());
    let sizes = with_bar(threshold.shown.as_str(), pace.as_str());
    let yes = with_bar("aux", with_bar(position.id.as_str(), sizes.as_str()).as_str());
    let no = with_bar("p", position.id.as_str());
    Ok(
        reply_with_two(
            write_auto_close_question(position, threshold.value, order.value, interval.value),
            "确认启用",
            yes.as_str(),
            "取消",
            no.as_str(),
        ),
    )
}

/// The question before a position is closed.
pub open spec fn close_question(token: Seq<char>) -> Seq<char> {
    "🚨 确认完全平掉 <b>"@ + escaped(token) + "</b> 的双腿仓位？此操作不可撤销。"@
}

fn write_close_question(token: &str) -> (s: String)
    ensures
        s@ == close_question(token@),
{
    let mut s = join("🚨 确认完全平掉 <b>", html(token).as_str());
    s.append("</b> 的双腿仓位？此操作不可撤销。");
    s
}

/// Asks before a position is closed.
pub fn confirm_close(position: &Position) -> (reply: Reply)
    ensures
        two_buttons(
            reply,
            close_question(position.token@),
            ("确认平仓"@, bar("cx"@, position.id@)),
            ("取消"@, bar("p"@, position.id@)),
        ),
{
    reply_with_two(
        write_close_question(position.token.as_str()),
        "确认平仓",
        with_bar("cx", position.id.as_str()).as_str(),
        "取消",
        with_bar("p", position.id.as_str()).as_str(),
    )
}

/// The question before a reduction, by how its size is shown.
pub open spec fn reduce_question(token: Seq<char>, size: Seq<char>) -> Seq<char> {
    "⚠️ 确认减少 <b>"@ + escaped(token) + "</b> 每腿 $"@ + size + "？"@
}

fn write_reduce_question(token: &str, size: &str) -> (s: String)
    ensures
        s@ == reduce_question(token@, size@),
{
    let mut s = join("⚠️ 确认减少 <b>", html(token).as_str());
    s.append("</b> 每腿 $");
    s.append(size);
    s.append("？");
    s
}

/// Asks before a reduction, by how its size is shown and how its button names
/// it.
pub fn confirm_reduce(position: &Position, size: &str, mark: &str) -> (reply: Reply)
    ensures
        two_buttons(
            reply,
            reduce_question(position.token@, size@),
            ("确认减仓"@, bar("rx"@, bar(position.id@, mark@))),
            ("取消"@, bar("p"@, position.id@)),
        ),
{
    reply_with_two(
        write_reduce_question(position.token.as_str(), size),
        "确认减仓",
        with_bar("rx", with_bar(position.id.as_str(), mark).as_str()).as_str(),
        "取消",
        with_bar("p", position.id.as_str()).as_str(),
    )
}

/// Whether this answers a command that reduces a position.
pub open spec fn answers_reduce(r: Result<Reply, String>, position: Position, word: Option<Word>) -> bool {
    match word {
        None => r matches Err(e) && e@ == "缺少金额"@,
        Some(w) => if means_all(w) {
            &&& r matches Ok(reply)
            &&& two_buttons(
                reply,
                close_question(position.token@),
                ("确认平仓"@, bar("cx"@, position.id@)),
                ("取消"@, bar("p"@, position.id@)),
            )
        } else {
            match w.number {
                None => r matches Err(e) && e@ == "金额必须是数字或 all"@,
                Some(a) => {
                    &&& r matches Ok(reply)
                    &&& two_buttons(
                        reply,
                        reduce_question(position.token@, fixed_text(a.value, 2)),
                        ("确认减仓"@, bar("rx"@, bar(position.id@, a.shown@))),
                        ("取消"@, bar("p"@, position.id@)),
                    )
                },
            }
        },
    }
}

/// Answers a command that reduces a position.
pub fn reduce_command(position: &Position, amount: Option<&Word>) -> (r: Result<Reply, String>)
    ensures
        answers_reduce(
            r,
            *position,
            match amount {
                Some(w) => Some(*w),
                None => None,
            },
        ),
{
    let word = match amount {
        Some(w) => w,
        None => return Err("缺少金额".to_owned()),
    };
    if same_ignoring_case(word.text.as_str(), "all") {
        return Ok(confirm_close(position));
    }
    match &word.number {
        Some(a) => Ok(confirm_reduce(position, fixed(a.value, 2).as_str(), a.shown.as_str())),
        None => Err("金额必须是数字或 all".to_owned()),
    }
}

/// Asks before a reduction that a button offers.
pub fn ask_reduce(position: &Position, amount: &str) -> (reply: Reply)
    ensures
        two_buttons(
            reply,
            reduce_question(position.token@, escaped(amount@)),
            ("确认减仓"@, bar("rx"@, bar(position.id@, amount@))),
            ("取消"@, bar("p"@, position.id@)),
        ),
{
    confirm_reduce(position, html(amount).as_str(), amount)
}

/// The question before a leverage is set.
pub open spec fn leverage_question(token: Seq<char>, leverage: Seq<char>) -> Seq<char> {
    "确认将 <b>"@ + escaped(token) + "</b> 双腿杠杆调整为 "@ + escaped(leverage) + "×？"@
}

fn write_leverage_question(token: &str, leverage: &str) -> (s: String)
    ensures
        s@ == leverage_question(token@, leverage@),
{
    let mut s = join("确认将 <b>", html(token).as_str());
    s.append("</b> 双腿杠杆调整为 ");
    s.append(html(leverage).as_str());
    s.append("×？");
    s
}

/// Asks before a leverage is set.
pub fn confirm_leverage(position: &Position, leverage: &str) -> (reply: Reply)
    ensures
        two_buttons(
            reply,
            leverage_question(position.token@, leverage@),
            ("确认调整"@, bar("lx"@, bar(position.id@, leverage@))),
            ("取消"@, bar("p"@, position.id@)),
        ),
{
    reply_with_two(
        write_leverage_question(position.token.as_str(), leverage),
        "确认调整",
        with_bar("lx", with_bar(position.id.as_str(), leverage).as_str()).as_str(),
        "取消",
        with_bar("p", position.id.as_str()).as_str(),
    )
}

/// Asks before a task is cancelled.
pub fn confirm_cancel_task(id: &str) -> (reply: Reply)
    ensures
        two_buttons(
            reply,
            "确认取消这个批量任务？已经成交的批次不会回滚。"@,
            ("确认取消"@, bar("bcx"@, id@)),
            ("返回任务"@, bar("bt"@, id@)),
        ),
{
    reply_with_two(
        "确认取消这个批量任务？已经成交的批次不会回滚。".to_owned(),
        "确认取消",
        with_bar("bcx", id).as_str(),
        "返回任务",
        with_bar("bt", id).as_str(),
    )
}

/// Two readings, or the first fault among them.
pub open spec fn both<A, B>(first: Result<A, Seq<char>>, second: Result<B, Seq<char>>) -> Result<(A, B), Seq<char>> {
    match (first, second) {
        (Err(fault), _) => Err(fault),
        (Ok(_), Err(fault)) => Err(fault),
        (Ok(a), Ok(b)) => Ok((a, b)),
    }
}

/// The size and the leverage of a button that asks before an opening.
pub fn open_settings(amount: &Word, leverage: &str) -> (r: Result<(Amount, u8), String>)
    ensures
        answers(r, both(number_in(*amount), small_number(leverage@))),
{
    let a = match plain_number(amount) {
        Ok(a) => a,
        Err(e) => return Err(e),
    };
    match parse_u8(leverage) {
        Ok(n) => Ok((a, n)),
        Err(e) => Err(e),
    }
}

/// The opening that a button confirms.
pub fn open_request(offer: &Opportunity, amount: &Word, leverage: &str) -> (r: Result<OpenTradeRequest, String>)
    ensures
        match both(number_in(*amount), small_number(leverage@)) {
            Err(fault) => r matches Err(e) && e@ == fault,
            Ok(s) => r matches Ok(request) && request == (OpenTradeRequest {
                opportunity_id: offer.id,
                notional_usdt: s.0.value,
                leverage: s.1,
                spread_guard: false,
                spread_threshold: None,
            }),
        },
{
    match open_settings(amount, leverage) {
        Err(e) => Err(e),
        Ok((a, n)) => Ok(
            OpenTradeRequest {
                opportunity_id: offer.id.clone(),
                notional_usdt: a.value,
                leverage: n,
                spread_guard: false,
                spread_threshold: None,
            },
        ),
    }
}

/// The settings of a button that opens in batches.
pub fn batch_settings(target: &Word, order: &Word, interval: &Word, leverage: &str) -> (r: Result<
    (Amount, (Amount, (Amount, u8))),
    String,
>)
    ensures
        answers(
            r,
            both(
                number_in(*target),
                both(number_in(*order), both(number_in(*interval), small_number(leverage@))),
            ),
        ),
{
    let t = match plain_number(target) {
        Ok(a) => a,
        Err(e) => return Err(e),
    };
    let o = match plain_number(order) {
        Ok(a) => a,
        Err(e) => return Err(e),
    };
    let i = match plain_number(interval) {
        Ok(a) => a,
        Err(e) => return Err(e),
    };
    match parse_u8(leverage) {
        Ok(n) => Ok((t, (o, (i, n)))),
        Err(e) => Err(e),
    }
}

/// The opening in batches that a button confirms.
pub fn batch_open_request(offer: &Opportunity, target: &Word, order: &Word, interval: &Word, leverage: &str) -> (r:
    Result<BatchIncreaseRequest, String>)
    ensures
        match both(
            number_in(*target),
            both(number_in(*order), both(number_in(*interval), small_number(leverage@))),
        ) {
            Err(fault) => r matches Err(e) && e@ == fault,
            Ok((t, (o, (i, n)))) => r matches Ok(request) && request == (BatchIncreaseRequest {
                opportunity_id: offer.id,
                target_notional_usdt: t.value,
                order_notional_usdt: o.value,
                interval_seconds: i.value,
                leverage: n,
                spread_guard: false,
                spread_threshold: None,
            }),
        },
{
    match batch_settings(target, order, interval, leverage) {
        Err(e) => Err(e),
        Ok((t, (o, (i, n)))) => Ok(
            BatchIncreaseRequest {
                opportunity_id: offer.id.clone(),
                target_notional_usdt: t.value,
                order_notional_usdt: o.value,
                interval_seconds: i.value,
                leverage: n,
                spread_guard: false,
                spread_threshold: None,
            },
        ),
    }
}

/// The guarded opening that a button confirms.
pub fn guard_open_request(offer: &Opportunity, target: &Word, leverage: &str, threshold: &Word) -> (r: Result<
    BatchIncreaseRequest,
    String,
>)
    ensures
        match both(number_in(*target), both(small_number(leverage@), number_in(*threshold))) {
            Err(fault) => r matches Err(e) && e@ == fault,
            Ok((t, (n, x))) => r matches Ok(request) && request == (BatchIncreaseRequest {
                opportunity_id: offer.id,
                target_notional_usdt: t.value,
                order_notional_usdt: Double { bits: ZERO },
                interval_seconds: Double { bits: QUARTER },
                leverage: n,
                spread_guard: true,
                spread_threshold: Some(x.value),
            }),
        },
{
    let t = match plain_number(target) {
        Ok(a) => a,
        Err(e) => return Err(e),
    };
    let n: u8 = match parse_u8(leverage) {
        Ok(n) => n,
        Err(e) => return Err(e),
    };
    let x = match plain_number(threshold) {
        Ok(a) => a,
        Err(e) => return Err(e),
    };
    Ok(
        BatchIncreaseRequest {
            opportunity_id: offer.id.clone(),
            target_notional_usdt: t.value,
            order_notional_usdt: Double { bits: ZERO },
            interval_seconds: Double { bits: QUARTER },
            leverage: n,
            spread_guard: true,
            spread_threshold: Some(x.value),
        },
    )
}

/// The reduction in batches that a button confirms.
pub fn batch_reduce_request(position: &Position, target: &Word, order: &Word, interval: &Word) -> (r: Result<
    BatchReduceRequest,
    String,
>)
    ensures
        match both(close_target(*target, *position), both(number_in(*order), number_in(*interval))) {
            Err(fault) => r matches Err(e) && e@ == fault,
            Ok((t, (o, i))) => r matches Ok(request) && request == (BatchReduceRequest {
                position_id: position.id,
                target_notional_usdt: t.0,
                close_all: t.1,
                order_notional_usdt: o.value,
                interval_seconds: i.value,
                no_loss_guard: false,
                close_spread_threshold: None,
                minimum_roi: None,
            }),
        },
{
    let (size, all) = match parse_close_target(target, position) {
        Ok(t) => t,
        Err(e) => return Err(e),
    };
    let o = match plain_number(order) {
        Ok(a) => a,
        Err(e) => return Err(e),
    };
    let i = match plain_number(interval) {
        Ok(a) => a,
        Err(e) => return Err(e),
    };
    Ok(
        BatchReduceRequest {
            position_id: position.id.clone(),
            target_notional_usdt: size,
            close_all: all,
            order_notional_usdt: o.value,
            interval_seconds: i.value,
            no_loss_guard: false,
            close_spread_threshold: None,
            minimum_roi: None,
        },
    )
}

/// The number of a word that may be left out.
pub open spec fn number_given(word: Option<Word>) -> Result<Option<Double>, Seq<char>> {
    match word {
        None => Ok(None),
        Some(w) => match number_in(w) {
            Ok(a) => Ok(Some(a.value)),
            Err(fault) => Err(fault),
        },
    }
}

/// The closing without a loss that a button confirms.
pub fn no_loss_request(position: &Position, target: &Word, threshold: Option<&Word>) -> (r: Result<
    BatchReduceRequest,
    String,
>)
    ensures
        match both(
            close_target(*target, *position),
            number_given(
                match threshold {
                    Some(w) => Some(*w),
                    None => None,
                },
            ),
        ) {
            Err(fault) => r matches Err(e) && e@ == fault,
            Ok((t, x)) => r matches Ok(request) && request == (BatchReduceRequest {
                position_id: position.id,
                target_notional_usdt: t.0,
                close_all: t.1,
                order_notional_usdt: Double { bits: ZERO },
                interval_seconds: Double { bits: QUARTER },
                no_loss_guard: true,
                close_spread_threshold: x,
                minimum_roi: None,
            }),
        },
{
    let (size, all) = match parse_close_target(target, position) {
        Ok(t) => t,
        Err(e) => return Err(e),
    };
    let x = match threshold {
        None => None,
        Some(w) => match plain_number(w) {
            Ok(a) => Some(a.value),
            Err(e) => return Err(e),
        },
    };
    Ok(
        BatchReduceRequest {
            position_id: position.id.clone(),
            target_notional_usdt: size,
            close_all: all,
            order_notional_usdt: Double { bits: ZERO },
            interval_seconds: Double { bits: QUARTER },
            no_loss_guard: true,
            close_spread_threshold: x,
            minimum_roi: None,
        },
    )
}

/// The settings of a button that sets a rule.
pub fn rule_settings(threshold: &Word, amount: &Word, interval: &Word) -> (r: Result<
    (Amount, (Amount, Amount)),
    String,
>)
    ensures
        answers(r, both(number_in(*threshold), both(number_in(*amount), number_in(*interval)))),
{
    let t = match plain_number(threshold) {
        Ok(a) => a,
        Err(e) => return Err(e),
    };
    let o = match plain_number(amount) {
        Ok(a) => a,
        Err(e) => return Err(e),
    };
    match plain_number(interval) {
        Ok(i) => Ok((t, (o, i))),
        Err(e) => Err(e),
    }
}

/// The size of the orders of a rule: what was said, or a hundred.
pub fn order_or_usual(said: Option<Amount>) -> (r: Amount)
    ensures
        match said {
            Some(a) => r == a,
            None => r.value == (Double { bits: HUNDRED }) && r.shown@ == "100"@,
        },
{
    match said {
        Some(a) => a,
        None => Amount { value: Double { bits: HUNDRED }, shown: "100".to_owned() },
    }
}

/// The pause between the orders of a rule: what was said, or two seconds.
pub fn interval_or_usual(said: Option<Amount>) -> (r: Amount)
    ensures
        match said {
            Some(a) => r == a,
            None => r.value == (Double { bits: TWO }) && r.shown@ == "2"@,
        },
{
    match said {
        Some(a) => a,
        None => Amount { value: Double { bits: TWO }, shown: "2".to_owned() },
    }
}

} // verus!
