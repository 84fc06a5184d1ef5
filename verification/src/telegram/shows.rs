//! What the bot shows.

use crate::market::decode::{to_uppercase, uppercase_text};
use crate::models::{
    AccountSummary, AutoCloseRule, BatchExecutionLog, BatchIncreaseTask, ExchangeBalance, HedgeProtectionEvent,
    HedgeProtectionStatus, OpportunitiesResponse, Opportunity, OpportunityHistoryPoint,
    OpportunityHistoryResponse, Position, TradeResponse,
};
use crate::num::constants::{HUNDRED, ZERO};
use crate::num::decimal::{fixed, fixed_signed, fixed_text, signed_text};
use crate::num::Double;
use crate::parsing::{trim_back, trim_end};
use crate::spread_strategy::{is_task_active, task_active, SpreadStrategyTrade};
use crate::telegram::replies::{
    add_row, bar, bare, bare_reply, button, keys, marks, no_rows, one_button, reply_with_one, reply_with_two,
    route_mark, route_of, row_of_one, row_of_two, two_buttons, with_bar, Button, Reply,
};
use crate::telegram::text::{
    batch_status, break_even, break_even_text, compact_text, compact_usdt, desk_time, escaped, format_desk,
    funding_schedule, history_rate, html, market_label, market_text, metrics_text, pad, padded,
    position_market_metrics, rate_text, schedule_text, share, share_or, show_share, show_share_or, status_text,
    tags_text, telegram_tags, time_or_dash,
};
use crate::text::{begins_with, chars_of, digits, digits_text, join, same, starts_with, text_of};
use vstd::prelude::*;
use vstd::string::StringExecFns;

verus! {

/// The line of a route over two contracts.
pub open spec fn cross_line(offer: Opportunity, rank: nat) -> Seq<char> {
    digits(rank) + ". <b>"@ + escaped(offer.token.symbol@) + "</b>"@ + tags_text(offer.token.tags@) + " "@ + escaped(offer.long.exchange@) + "→"@ + escaped(offer.short.exchange@) + " · APY "@ + share(offer.apy, 1) + "%（"@ + digits(offer.apy_horizon_hours as nat) + "h）· 价差 "@ + share(offer.spread, 3) + "% · 回本 "@ + break_even_text(offer.break_even_hours) + "\n"@
}

fn write_cross_line(offer: &Opportunity, rank: usize) -> (s: String)
    ensures
        s@ == cross_line(*offer, rank as nat),
{
    let mut s = join(digits_text(rank as u128).as_str(), ". <b>");
    s.append(html(offer.token.symbol.as_str()).as_str());
    s.append("</b>");
    s.append(telegram_tags(&offer.token.tags).as_str());
    s.append(" ");
    s.append(html(offer.long.exchange.as_str()).as_str());
    s.append("→");
    s.append(html(offer.short.exchange.as_str()).as_str());
    s.append(" · APY ");
    s.append(show_share(offer.apy, 1).as_str());
    s.append("%（");
    s.append(digits_text(offer.apy_horizon_hours as u128).as_str());
    s.append("h）· 价差 ");
    s.append(show_share(offer.spread, 3).as_str());
    s.append("% · 回本 ");
    s.append(break_even(offer.break_even_hours).as_str());
    s.append("\n");
    s
}

/// The line of a route over a coin.
pub open spec fn spot_line(offer: Opportunity, rank: nat) -> Seq<char> {
    digits(rank) + ". <b>"@ + escaped(offer.token.symbol@) + "</b>"@ + tags_text(offer.token.tags@) + " "@ + escaped(offer.long.exchange@) + " "@ + escaped(offer.long.market@) + "→"@ + escaped(offer.short.exchange@) + " "@ + escaped(offer.short.market@) + " · APY "@ + share(offer.apy, 1) + "% · 价差 "@ + share(offer.spread, 3) + "% · 回本 "@ + break_even_text(offer.break_even_hours) + "\n"@
}

fn write_spot_line(offer: &Opportunity, rank: usize) -> (s: String)
    ensures
        s@ == spot_line(*offer, rank as nat),
{
    let mut s = join(digits_text(rank as u128).as_str(), ". <b>");
    s.append(html(offer.token.symbol.as_str()).as_str());
    s.append("</b>");
    s.append(telegram_tags(&offer.token.tags).as_str());
    s.append(" ");
    s.append(html(offer.long.exchange.as_str()).as_str());
    s.append(" ");
    s.append(html(offer.long.market.as_str()).as_str());
    s.append("→");
    s.append(html(offer.short.exchange.as_str()).as_str());
    s.append(" ");
    s.append(html(offer.short.market.as_str()).as_str());
    s.append(" · APY ");
    s.append(show_share(offer.apy, 1).as_str());
    s.append("% · 价差 ");
    s.append(show_share(offer.spread, 3).as_str());
    s.append("% · 回本 ");
    s.append(break_even(offer.break_even_hours).as_str());
    s.append("\n");
    s
}

/// What the button of a route over two contracts shows.
pub open spec fn cross_label(offer: Opportunity) -> Seq<char> {
    offer.token.symbol@ + " · "@ + share(offer.apy, 1) + "%"@
}

fn write_cross_label(offer: &Opportunity) -> (s: String)
    ensures
        s@ == cross_label(*offer),
{
    let mut s = join(offer.token.symbol.as_str(), " · ");
    s.append(show_share(offer.apy, 1).as_str());
    s.append("%");
    s
}

/// What the button of a route over a coin shows.
pub open spec fn spot_label(offer: Opportunity) -> Seq<char> {
    offer.token.symbol@ + " Spot/Perp · "@ + share(offer.apy, 1) + "%"@
}

fn write_spot_label(offer: &Opportunity) -> (s: String)
    ensures
        s@ == spot_label(*offer),
{
    let mut s = join(offer.token.symbol.as_str(), " Spot/Perp · ");
    s.append(show_share(offer.apy, 1).as_str());
    s.append("%");
    s
}

/// The lines of the first `n` routes.
pub open spec fn cross_lines(offers: Seq<Opportunity>, n: int) -> Seq<char>
    decreases n,
{
    if n <= 0 {
        Seq::empty()
    } else {
        cross_lines(offers, n - 1) + cross_line(offers[n - 1], n as nat)
    }
}

/// The buttons of the first `n` routes.
pub open spec fn cross_rows(offers: Seq<Opportunity>, n: int) -> Seq<Seq<(Seq<char>, Seq<char>)>>
    decreases n,
{
    if n <= 0 {
        Seq::empty()
    } else {
        cross_rows(offers, n - 1).push(
            seq![(cross_label(offers[n - 1]), bar("o"@, route_mark(offers[n - 1])))],
        )
    }
}

fn list_cross(offers: &Vec<Opportunity>, text: &mut String, keyboard: &mut Vec<Vec<Button>>)
    ensures
        final(text)@ == old(text)@ + cross_lines(offers@, shown(offers@.len())),
        keys(final(keyboard)@) == keys(old(keyboard)@) + cross_rows(offers@, shown(offers@.len())),
{
    let ghost before = text@;
    let ghost rows = keys(keyboard@);
    let mut i: usize = 0;
    proof {
        assert(before + cross_lines(offers@, 0) =~= before);
        assert(rows + cross_rows(offers@, 0) =~= rows);
    }
    while i < offers.len() && i < 10
        invariant
            i <= offers@.len(),
            i <= 10,
            text@ == before + cross_lines(offers@, i as int),
            keys(keyboard@) == rows + cross_rows(offers@, i as int),
        decreases offers@.len() - i,
    {
        let offer = &offers[i];
        text.append(write_cross_line(offer, i + 1).as_str());
        let label = write_cross_label(offer);
        let data = with_bar("o", route_of(offer).as_str());
        add_row(keyboard, row_of_one(label.as_str(), data.as_str()));
        i = i + 1;
        proof {
            assert(text@ =~= before + cross_lines(offers@, i as int));
            assert(keys(keyboard@) =~= rows + cross_rows(offers@, i as int));
        }
    }
}

/// The lines of the first `n` routes.
pub open spec fn spot_lines(offers: Seq<Opportunity>, n: int) -> Seq<char>
    decreases n,
{
    if n <= 0 {
        Seq::empty()
    } else {
        spot_lines(offers, n - 1) + spot_line(offers[n - 1], n as nat)
    }
}

/// The buttons of the first `n` routes.
pub open spec fn spot_rows(offers: Seq<Opportunity>, n: int) -> Seq<Seq<(Seq<char>, Seq<char>)>>
    decreases n,
{
    if n <= 0 {
        Seq::empty()
    } else {
        spot_rows(offers, n - 1).push(
            seq![(spot_label(offers[n - 1]), bar("o"@, route_mark(offers[n - 1])))],
        )
    }
}

fn list_spot(offers: &Vec<Opportunity>, text: &mut String, keyboard: &mut Vec<Vec<Button>>)
    ensures
        final(text)@ == old(text)@ + spot_lines(offers@, shown(offers@.len())),
        keys(final(keyboard)@) == keys(old(keyboard)@) + spot_rows(offers@, shown(offers@.len())),
{
    let ghost before = text@;
    let ghost rows = keys(keyboard@);
    let mut i: usize = 0;
    proof {
        assert(before + spot_lines(offers@, 0) =~= before);
        assert(rows + spot_rows(offers@, 0) =~= rows);
    }
    while i < offers.len() && i < 10
        invariant
            i <= offers@.len(),
            i <= 10,
            text@ == before + spot_lines(offers@, i as int),
            keys(keyboard@) == rows + spot_rows(offers@, i as int),
        decreases offers@.len() - i,
    {
        let offer = &offers[i];
        text.append(write_spot_line(offer, i + 1).as_str());
        let label = write_spot_label(offer);
        let data = with_bar("o", route_of(offer).as_str());
        add_row(keyboard, row_of_one(label.as_str(), data.as_str()));
        i = i + 1;
        proof {
            assert(text@ =~= before + spot_lines(offers@, i as int));
            assert(keys(keyboard@) =~= rows + spot_rows(offers@, i as int));
        }
    }
}

/// How many of some routes are shown.
pub open spec fn shown(n: nat) -> int {
    if n < 10 {
        n as int
    } else {
        10
    }
}

/// The routes, as they are shown.
pub open spec fn opportunities_text(response: OpportunitiesResponse, time: Seq<char>) -> Seq<char> {
    "<b>当前资费套利机会</b>\n更新时间："@ + time + "\n\n<b>跨所永续 TOP 10</b>\n"@ + cross_lines(
        response.opportunities@,
        shown(response.opportunities@.len()),
    ) + "\n<b>同所现货–永续 TOP 10</b>\n"@ + spot_lines(
        response.spot_opportunities@,
        shown(response.spot_opportunities@.len()),
    )
}

/// Shows the routes: the first ten of each kind.
pub fn show_opportunities(response: &OpportunitiesResponse, time: &str) -> (reply: Reply)
    ensures
        reply.text@ == opportunities_text(*response, time@),
        keys(reply.keyboard@) == cross_rows(
            response.opportunities@,
            shown(response.opportunities@.len()),
        ) + spot_rows(response.spot_opportunities@, shown(response.spot_opportunities@.len())) + seq![
            seq![("刷新"@, "opps"@), ("持仓"@, "pos"@)],
        ],
{
    let mut text = join("<b>当前资费套利机会</b>\n更新时间：", time);
    text.append("\n\n<b>跨所永续 TOP 10</b>\n");
    let mut keyboard = no_rows();
    list_cross(&response.opportunities, &mut text, &mut keyboard);
    text.append("\n<b>同所现货–永续 TOP 10</b>\n");
    list_spot(&response.spot_opportunities, &mut text, &mut keyboard);
    add_row(&mut keyboard, row_of_two("刷新", "opps", "持仓", "pos"));
    proof {
        let crossing = cross_rows(response.opportunities@, shown(response.opportunities@.len()));
        let coins = spot_rows(response.spot_opportunities@, shown(response.spot_opportunities@.len()));
        assert(keys(keyboard@) =~= crossing + coins + seq![seq![("刷新"@, "opps"@), ("持仓"@, "pos"@)]]);
    }
    Reply { text, keyboard }
}

/// How long a route has to be held, where that matters.
pub open spec fn horizon_text(offer: Opportunity) -> Seq<char> {
    if offer.route_type@ == "cross_perpetual"@ {
        "（最佳平均收益需持有 "@ + digits(offer.apy_horizon_hours as nat) + " 小时）"@
    } else {
        ""@
    }
}

fn write_horizon(offer: &Opportunity) -> (s: String)
    ensures
        s@ == horizon_text(*offer),
{
    if same(offer.route_type.as_str(), "cross_perpetual") {
        let mut s = join("（最佳平均收益需持有 ", digits_text(offer.apy_horizon_hours as u128).as_str());
        s.append(" 小时）");
        s
    } else {
        "".to_owned()
    }
}

/// What it costs to borrow the coin of a route, where it does.
pub open spec fn borrow_text(offer: Opportunity) -> Seq<char> {
    if (Double { bits: ZERO }).lt_spec(offer.borrow_interest_per_hour) {
        "\nSpot 借币成本：-"@ + fixed_text(
            offer.borrow_interest_per_hour.mul_spec(Double { bits: HUNDRED }),
            5,
        ) + "%/小时"@
    } else {
        ""@
    }
}

fn write_borrow(offer: &Opportunity) -> (s: String)
    ensures
        s@ == borrow_text(*offer),
{
    if offer.borrow_interest_per_hour.gt(Double { bits: ZERO }) {
        let mut s = join(
            "\nSpot 借币成本：-",
            fixed(offer.borrow_interest_per_hour.mul(Double { bits: HUNDRED }), 5).as_str(),
        );
        s.append("%/小时");
        s
    } else {
        "".to_owned()
    }
}

/// A route, as it is shown with the settlements of its legs.
pub open spec fn opportunity_text(offer: Opportunity, long_schedule: Seq<char>, short_schedule: Seq<char>) -> Seq<char> {
    "<b>"@ + escaped(offer.token.symbol@) + "/USDT</b>"@ + tags_text(offer.token.tags@) + "\n🟢 LONG "@ + escaped(offer.long.exchange@) + " · "@ + market_text(offer.long.market@) + " @ $"@ + fixed_text(offer.long.ask, 6) + " · 24h "@ + compact_text(offer.long.volume_24h_usdt) + "\n   "@ + long_schedule + "\n🔴 SHORT "@ + escaped(offer.short.exchange@) + " · "@ + market_text(offer.short.market@) + " @ $"@ + fixed_text(offer.short.bid, 6) + " · 24h "@ + compact_text(offer.short.volume_24h_usdt) + "\n   "@ + short_schedule + "\n\n资金 APY："@ + share(offer.apy, 2) + "%"@ + horizon_text(offer) + "\n开仓价差："@ + share(offer.spread, 3) + "%\n预计回本："@ + break_even_text(offer.break_even_hours) + "\n资金净收益："@ + share(offer.funding_per_hour, 5) + "%/小时"@ + borrow_text(offer)
}

fn write_opportunity_text(offer: &Opportunity, long_schedule: &str, short_schedule: &str) -> (s: String)
    ensures
        s@ == opportunity_text(*offer, long_schedule@, short_schedule@),
{
    let mut s = join("<b>", html(offer.token.symbol.as_str()).as_str());
    s.append("/USDT</b>");
    s.append(telegram_tags(&offer.token.tags).as_str());
    s.append("\n🟢 LONG ");
    s.append(html(offer.long.exchange.as_str()).as_str());
    s.append(" · ");
    s.append(market_label(offer.long.market.as_str()));
    s.append(" @ $");
    s.append(fixed(offer.long.ask, 6).as_str());
    s.append(" · 24h ");
    s.append(compact_usdt(offer.long.volume_24h_usdt).as_str());
    s.append("\n   ");
    s.append(long_schedule);
    s.append("\n🔴 SHORT ");
    s.append(html(offer.short.exchange.as_str()).as_str());
    s.append(" · ");
    s.append(market_label(offer.short.market.as_str()));
    s.append(" @ $");
    s.append(fixed(offer.short.bid, 6).as_str());
    s.append(" · 24h ");
    s.append(compact_usdt(offer.short.volume_24h_usdt).as_str());
    s.append("\n   ");
    s.append(short_schedule);
    s.append("\n\n资金 APY：");
    s.append(show_share(offer.apy, 2).as_str());
    s.append("%");
    s.append(write_horizon(offer).as_str());
    s.append("\n开仓价差：");
    s.append(show_share(offer.spread, 3).as_str());
    s.append("%\n预计回本：");
    s.append(break_even(offer.break_even_hours).as_str());
    s.append("\n资金净收益：");
    s.append(show_share(offer.funding_per_hour, 5).as_str());
    s.append("%/小时");
    s.append(write_borrow(offer).as_str());
    s
}

/// The buttons below a route.
pub open spec fn opportunity_rows(offer: Opportunity) -> Seq<Seq<(Seq<char>, Seq<char>)>> {
    let route = route_mark(offer);
    seq![
        seq![
            ("开仓 $100 · 5×"@, bar("oc"@, bar(route, "100|5"@))),
            ("开仓 $500 · 5×"@, bar("oc"@, bar(route, "500|5"@))),
        ],
        seq![
            ("开仓 $1000 · 5×"@, bar("oc"@, bar(route, "1000|5"@))),
            ("刷新机会"@, bar("o"@, route)),
        ],
        seq![("查看 24h 价差与资费"@, bar("oh"@, route))],
        seq![("返回列表"@, "opps"@)],
    ]
}

/// Shows a route with the settlements of its legs.
pub fn opportunity_reply(offer: &Opportunity, long_schedule: &str, short_schedule: &str) -> (reply: Reply)
    ensures
        reply.text@ == opportunity_text(*offer, long_schedule@, short_schedule@),
        keys(reply.keyboard@) == opportunity_rows(*offer),
{
    let text = write_opportunity_text(offer, long_schedule, short_schedule);
    let owned = route_of(offer);
    let route = owned.as_str();
    let mut keyboard = no_rows();
    add_row(
        &mut keyboard,
        row_of_two(
            "开仓 $100 · 5×",
            with_bar("oc", with_bar(route, "100|5").as_str()).as_str(),
            "开仓 $500 · 5×",
            with_bar("oc", with_bar(route, "500|5").as_str()).as_str(),
        ),
    );
    add_row(
        &mut keyboard,
        row_of_two(
            "开仓 $1000 · 5×",
            with_bar("oc", with_bar(route, "1000|5").as_str()).as_str(),
            "刷新机会",
            with_bar("o", route).as_str(),
        ),
    );
    add_row(&mut keyboard, row_of_one("查看 24h 价差与资费", with_bar("oh", route).as_str()));
    add_row(&mut keyboard, row_of_one("返回列表", "opps"));
    proof {
        assert(keys(keyboard@) =~= opportunity_rows(*offer));
    }
    Reply { text, keyboard }
}

/// Shows a route. The texts of the hours between two settlements of its legs
/// are given.
pub fn show_opportunity(offer: &Opportunity, long_hours: &str, short_hours: &str) -> (reply: Reply)
    ensures
        reply.text@ == opportunity_text(
            *offer,
            schedule_text(offer.long, long_hours@, desk_time(offer.long.next_funding_time, "%m-%d %H:%M"@)),
            schedule_text(offer.short, short_hours@, desk_time(offer.short.next_funding_time, "%m-%d %H:%M"@)),
        ),
        keys(reply.keyboard@) == opportunity_rows(*offer),
{
    let long_schedule = funding_schedule(&offer.long, long_hours);
    let short_schedule = funding_schedule(&offer.short, short_hours);
    opportunity_reply(offer, long_schedule.as_str(), short_schedule.as_str())
}

/// A line of a history, with its time.
pub open spec fn history_line(point: OpportunityHistoryPoint, time: Option<Seq<char>>) -> Seq<char> {
    time_or_dash(time) + " "@ + padded(signed_text(point.directional_spread_percent, 3), 7) + " "@ + padded(
        rate_text(point.long_funding_rate),
        7,
    ) + " "@ + padded(rate_text(point.short_funding_rate), 7) + "\n"@
}

/// A line of a history, with its time.
pub fn write_history_line(point: &OpportunityHistoryPoint, time: Option<String>) -> (s: String)
    ensures
        s@ == history_line(
            *point,
            match time {
                Some(t) => Some(t@),
                None => None,
            },
        ),
{
    let mut s = match time {
        Some(t) => t,
        None => "—".to_owned(),
    };
    s.append(" ");
    s.append(pad(fixed_signed(point.directional_spread_percent, 3).as_str(), 7).as_str());
    s.append(" ");
    s.append(pad(history_rate(point.long_funding_rate).as_str(), 7).as_str());
    s.append(" ");
    s.append(pad(history_rate(point.short_funding_rate).as_str(), 7).as_str());
    s.append("\n");
    s
}

/// The lines of the first `n` points of a history.
pub open spec fn history_lines(points: Seq<OpportunityHistoryPoint>, n: int) -> Seq<char>
    decreases n,
{
    if n <= 0 {
        "时间   价差%    Long%   Short%\n"@
    } else {
        history_lines(points, n - 1) + history_line(
            points[n - 1],
            desk_time(points[n - 1].timestamp, "%m-%d %H"@),
        )
    }
}

/// A history, as it is shown.
pub open spec fn history_text(token: Seq<char>, table: Seq<char>) -> Seq<char> {
    "<b>"@ + escaped(token)
        + "/USDT · 过去 24 小时</b>\n方向：SHORT − LONG；正值表示 SHORT 价格更高\n资金费率为截至该小时最近一次已知结算费率\n\n<pre>"@
        + escaped(trim_back(table)) + "</pre>"@
}

/// What the button that refreshes a history sends.
pub open spec fn refresh_mark(back: Seq<char>) -> Seq<char> {
    if begins_with(back, "o|"@) {
        "oh|"@ + back.skip(2)
    } else if begins_with(back, "p|"@) {
        "ph|"@ + back.skip(2)
    } else {
        back
    }
}

fn refresh_of(back: &str) -> (s: String)
    ensures
        s@ == refresh_mark(back@),
{
    let v = chars_of(back);
    let n: usize = v.len();
    proof {
        reveal_strlit("o|");
        reveal_strlit("p|");
    }
    if starts_with(back, "o|") {
        proof {
            assert(v@.subrange(2, n as int) =~= back@.skip(2));
        }
        return join("oh|", text_of(&v, 2, n).as_str());
    }
    if starts_with(back, "p|") {
        proof {
            assert(v@.subrange(2, n as int) =~= back@.skip(2));
        }
        return join("ph|", text_of(&v, 2, n).as_str());
    }
    back.to_owned()
}

/// Shows a table of a history.
pub fn history_reply(token: &str, table: &str, back: &str) -> (reply: Reply)
    ensures
        two_buttons(
            reply,
            history_text(token@, table@),
            ("刷新历史"@, refresh_mark(back@)),
            ("返回"@, back@),
        ),
{
    let mut text = join("<b>", html(token).as_str());
    text.append(
        "/USDT · 过去 24 小时</b>\n方向：SHORT − LONG；正值表示 SHORT 价格更高\n资金费率为截至该小时最近一次已知结算费率\n\n<pre>",
    );
    text.append(html(trim_end(table).as_str()).as_str());
    text.append("</pre>");
    reply_with_two(text, "刷新历史", refresh_of(back).as_str(), "返回", back)
}

/// Shows the history of a route.
pub fn show_market_history(token: &str, history: &OpportunityHistoryResponse, back: &str) -> (reply: Reply)
    ensures
        two_buttons(
            reply,
            history_text(token@, history_lines(history.points@, history.points@.len() as int)),
            ("刷新历史"@, refresh_mark(back@)),
            ("返回"@, back@),
        ),
{
    let mut table = "时间   价差%    Long%   Short%\n".to_owned();
    let mut i: usize = 0;
    while i < history.points.len()
        invariant
            i <= history.points@.len(),
            table@ == history_lines(history.points@, i as int),
        decreases history.points@.len() - i,
    {
        let point = &history.points[i];
        let time = format_desk(point.timestamp, "%m-%d %H");
        table.append(write_history_line(point, time).as_str());
        i = i + 1;
    }
    history_reply(token, table.as_str(), back)
}

/// How far a task is, in percent.
pub open spec fn progress_of(task: BatchIncreaseTask) -> Double {
    let zero = Double { bits: ZERO };
    let hundred = Double { bits: HUNDRED };
    if zero.lt_spec(task.target_notional_usdt) {
        let percent = task.completed_notional_usdt.div_spec(task.target_notional_usdt).mul_spec(hundred);
        if percent.lt_spec(zero) {
            zero
        } else if hundred.lt_spec(percent) {
            hundred
        } else {
            percent
        }
    } else {
        zero
    }
}

fn measure_progress(task: &BatchIncreaseTask) -> (r: Double)
    ensures
        r == progress_of(*task),
{
    let zero = Double { bits: ZERO };
    let hundred = Double { bits: HUNDRED };
    if !task.target_notional_usdt.gt(zero) {
        return zero;
    }
    let percent = task.completed_notional_usdt.div(task.target_notional_usdt).mul(hundred);
    if percent.lt(zero) {
        zero
    } else if percent.gt(hundred) {
        hundred
    } else {
        percent
    }
}

/// What a task does.
pub open spec fn action_text(task: BatchIncreaseTask) -> Seq<char> {
    if task.no_loss_guard {
        "保不亏平仓"@
    } else if task.action@ == "reduce"@ {
        "批量减仓"@
    } else {
        "批量加仓"@
    }
}

fn action_label(task: &BatchIncreaseTask) -> (s: &'static str)
    ensures
        s@ == action_text(*task),
{
    if task.no_loss_guard {
        "保不亏平仓"
    } else if same(task.action.as_str(), "reduce") {
        "批量减仓"
    } else {
        "批量加仓"
    }
}

/// How many batches of a task are done.
pub open spec fn batches_text(task: BatchIncreaseTask) -> Seq<char> {
    if task.spread_guard || task.no_loss_guard {
        digits(task.completed_batches as nat) + " 次动态盘口下单"@
    } else {
        digits(task.completed_batches as nat) + " / "@ + digits(task.total_batches as nat)
    }
}

fn write_batches(task: &BatchIncreaseTask) -> (s: String)
    ensures
        s@ == batches_text(*task),
{
    let done = digits_text(task.completed_batches as u128);
    if task.spread_guard || task.no_loss_guard {
        join(done.as_str(), " 次动态盘口下单")
    } else {
        let mut s = join(done.as_str(), " / ");
        s.append(digits_text(task.total_batches as u128).as_str());
        s
    }
}

/// How a task goes about it.
pub open spec fn pace_text(task: BatchIncreaseTask) -> Seq<char> {
    if task.spread_guard {
        "单腿硬顶 $50；差额立即市价补齐，价差欠账由后续 10 批分摊，无人为间隔"@
    } else if task.no_loss_guard {
        "只看双腿仓位盈亏；差额立即市价补齐，价差欠账由后续 10 批分摊"@
    } else {
        "单笔 $"@ + fixed_text(task.order_notional_usdt, 2) + " · 间隔 "@ + fixed_text(task.interval_seconds, 1)
            + "s"@
    }
}

fn write_pace(task: &BatchIncreaseTask) -> (s: String)
    ensures
        s@ == pace_text(*task),
{
    if task.spread_guard {
        "单腿硬顶 $50；差额立即市价补齐，价差欠账由后续 10 批分摊，无人为间隔".to_owned()
    } else if task.no_loss_guard {
        "只看双腿仓位盈亏；差额立即市价补齐，价差欠账由后续 10 批分摊".to_owned()
    } else {
        let mut s = join("单笔 $", fixed(task.order_notional_usdt, 2).as_str());
        s.append(" · 间隔 ");
        s.append(fixed(task.interval_seconds, 1).as_str());
        s.append("s");
        s
    }
}

/// What is shown of the gap that a task holds to.
pub open spec fn guard_text(task: BatchIncreaseTask) -> Seq<char> {
    if task.spread_guard {
        "\n保价差限价：门槛 "@ + share(
            match task.spread_threshold {
                Some(x) => x,
                None => Double { bits: ZERO },
            },
            4,
        ) + "% · 当前 "@ + share_or(task.current_spread, 4, "读取中"@) + " · 已等待 "@ + digits(
            task.spread_wait_count as nat,
        ) + " 次"@ + "\n动态要求："@ + share_or(task.effective_spread_threshold, 4, "读取中"@)
            + " · 累计成交价差："@ + share_or(task.cumulative_filled_spread, 4, "暂无"@)
    } else {
        ""@
    }
}

fn write_guard(task: &BatchIncreaseTask) -> (s: String)
    ensures
        s@ == guard_text(*task),
{
    if !task.spread_guard {
        return "".to_owned();
    }
    let threshold = match task.spread_threshold {
        Some(x) => x,
        None => Double { bits: ZERO },
    };
    let mut s = join("\n保价差限价：门槛 ", show_share(threshold, 4).as_str());
    s.append("% · 当前 ");
    s.append(show_share_or(task.current_spread, 4, "读取中").as_str());
    s.append(" · 已等待 ");
    s.append(digits_text(task.spread_wait_count as u128).as_str());
    s.append(" 次");
    s.append("\n动态要求：");
    s.append(show_share_or(task.effective_spread_threshold, 4, "读取中").as_str());
    s.append(" · 累计成交价差：");
    s.append(show_share_or(task.cumulative_filled_spread, 4, "暂无").as_str());
    s
}

/// What a task would gain, as it is shown.
pub open spec fn gain_text(gain: Option<Double>) -> Seq<char> {
    match gain {
        Some(x) => signed_text(x, 4) + " USDT"@,
        None => "读取中"@,
    }
}

fn write_gain(gain: Option<Double>) -> (s: String)
    ensures
        s@ == gain_text(gain),
{
    match gain {
        Some(x) => join(fixed_signed(x, 4).as_str(), " USDT"),
        None => "读取中".to_owned(),
    }
}

/// What is shown of the loss that a task avoids.
pub open spec fn no_loss_text(task: BatchIncreaseTask) -> Seq<char> {
    if task.no_loss_guard {
        "\n保价差且不亏平仓：门槛 "@ + share_or(task.effective_spread_threshold, 4, "读取中"@) + " · 当前 "@ + share_or(
            task.current_spread,
            4,
            "读取中"@,
        ) + " · 累计成交 "@ + share_or(task.cumulative_filled_spread, 4, "暂无"@) + " · 当前可配对仓位盈亏 "@
            + gain_text(task.current_close_pnl_usdt) + " · 已等待 "@ + digits(task.spread_wait_count as nat)
            + " 次"@
    } else {
        ""@
    }
}

fn write_no_loss(task: &BatchIncreaseTask) -> (s: String)
    ensures
        s@ == no_loss_text(*task),
{
    if !task.no_loss_guard {
        return "".to_owned();
    }
    let mut s = join(
        "\n保价差且不亏平仓：门槛 ",
        show_share_or(task.effective_spread_threshold, 4, "读取中").as_str(),
    );
    s.append(" · 当前 ");
    s.append(show_share_or(task.current_spread, 4, "读取中").as_str());
    s.append(" · 累计成交 ");
    s.append(show_share_or(task.cumulative_filled_spread, 4, "暂无").as_str());
    s.append(" · 当前可配对仓位盈亏 ");
    s.append(write_gain(task.current_close_pnl_usdt).as_str());
    s.append(" · 已等待 ");
    s.append(digits_text(task.spread_wait_count as u128).as_str());
    s.append(" 次");
    s
}

/// A fill of a task.
pub open spec fn log_line(log: BatchExecutionLog) -> Seq<char> {
    "\n#"@ + digits(log.batch as nat) + " "@ + escaped(log.exchange@) + " · "@ + escaped(uppercase_text(log.side@)) + " "@ + escaped(log.token@) + " · $"@ + fixed_text(log.notional_usdt, 2) + " @ $"@ + fixed_text(log.average_price, 6)
}

fn write_log_line(log: &BatchExecutionLog) -> (s: String)
    ensures
        s@ == log_line(*log),
{
    let mut s = join("\n#", digits_text(log.batch as u128).as_str());
    s.append(" ");
    s.append(html(log.exchange.as_str()).as_str());
    s.append(" · ");
    s.append(html(to_uppercase(log.side.as_str()).as_str()).as_str());
    s.append(" ");
    s.append(html(log.token.as_str()).as_str());
    s.append(" · $");
    s.append(fixed(log.notional_usdt, 2).as_str());
    s.append(" @ $");
    s.append(fixed(log.average_price, 6).as_str());
    s
}

/// The fills of a task from one on.
pub open spec fn log_lines(logs: Seq<BatchExecutionLog>, from: int, to: int) -> Seq<char>
    decreases to - from,
{
    if to <= from {
        Seq::empty()
    } else {
        log_lines(logs, from, to - 1) + log_line(logs[to - 1])
    }
}

/// The place of the first fill that is shown: the last six are.
pub open spec fn first_shown(n: nat) -> int {
    if n > 6 {
        n - 6
    } else {
        0
    }
}

/// The last fills of a task.
pub open spec fn fills_text(task: BatchIncreaseTask) -> Seq<char> {
    if task.logs@.len() == 0 {
        ""@
    } else {
        "\n\n<b>最近成交</b>"@ + log_lines(
            task.logs@,
            first_shown(task.logs@.len()),
            task.logs@.len() as int,
        )
    }
}

fn write_fills(task: &BatchIncreaseTask) -> (s: String)
    ensures
        s@ == fills_text(*task),
{
    if task.logs.len() == 0 {
        return "".to_owned();
    }
    let mut s = "\n\n<b>最近成交</b>".to_owned();
    let ghost title = s@;
    let from: usize = if task.logs.len() > 6 {
        task.logs.len() - 6
    } else {
        0
    };
    let mut i: usize = from;
    proof {
        assert(title + log_lines(task.logs@, from as int, from as int) =~= title);
    }
    while i < task.logs.len()
        invariant
            from <= i <= task.logs@.len(),
            s@ == title + log_lines(task.logs@, from as int, i as int),
        decreases task.logs@.len() - i,
    {
        s.append(write_log_line(&task.logs[i]).as_str());
        i = i + 1;
        proof {
            assert(s@ =~= title + log_lines(task.logs@, from as int, i as int));
        }
    }
    s
}

/// The leverage of a task, where it has one.
pub open spec fn task_leverage_text(task: BatchIncreaseTask) -> Seq<char> {
    match task.leverage {
        Some(n) => "\n杠杆："@ + digits(n as nat) + "×"@,
        None => ""@,
    }
}

fn write_task_leverage(task: &BatchIncreaseTask) -> (s: String)
    ensures
        s@ == task_leverage_text(*task),
{
    match task.leverage {
        Some(n) => {
            let mut s = join("\n杠杆：", digits_text(n as u128).as_str());
            s.append("×");
            s
        },
        None => "".to_owned(),
    }
}

/// What went wrong with something, where anything did.
pub open spec fn fault_text(before: Seq<char>, error: Option<String>) -> Seq<char> {
    match error {
        Some(e) => before + escaped(e@),
        None => ""@,
    }
}

fn write_fault(before: &str, error: &Option<String>) -> (s: String)
    ensures
        s@ == fault_text(before@, *error),
{
    match error {
        Some(e) => join(before, html(e.as_str()).as_str()),
        None => "".to_owned(),
    }
}

/// A task, as it is shown.
pub open spec fn task_text(task: BatchIncreaseTask) -> Seq<char> {
    "<b>"@ + action_text(task) + " · "@ + escaped(task.token@) + "</b>\n状态："@ + escaped(status_text(task.status@)) + "\n进度："@ + fixed_text(progress_of(task), 1) + "% · $"@ + fixed_text(task.completed_notional_usdt, 2) + " / $"@ + fixed_text(task.target_notional_usdt, 2) + "\n批次："@ + batches_text(task) + "\n"@ + pace_text(task) + task_leverage_text(task) + guard_text(task) + no_loss_text(task) + fault_text("\n\n❌ "@, task.error) + fills_text(task)
}

fn write_task_text(task: &BatchIncreaseTask) -> (s: String)
    ensures
        s@ == task_text(*task),
{
    let mut s = join("<b>", action_label(task));
    s.append(" · ");
    s.append(html(task.token.as_str()).as_str());
    s.append("</b>\n状态：");
    s.append(html(batch_status(task.status.as_str())).as_str());
    s.append("\n进度：");
    s.append(fixed(measure_progress(task), 1).as_str());
    s.append("% · $");
    s.append(fixed(task.completed_notional_usdt, 2).as_str());
    s.append(" / $");
    s.append(fixed(task.target_notional_usdt, 2).as_str());
    s.append("\n批次：");
    s.append(write_batches(task).as_str());
    s.append("\n");
    s.append(write_pace(task).as_str());
    s.append(write_task_leverage(task).as_str());
    s.append(write_guard(task).as_str());
    s.append(write_no_loss(task).as_str());
    s.append(write_fault("\n\n❌ ", &task.error).as_str());
    s.append(write_fills(task).as_str());
    s
}

/// The buttons below a task: it can be cancelled until it is over.
pub open spec fn task_rows(task: BatchIncreaseTask) -> Seq<Seq<(Seq<char>, Seq<char>)>> {
    let refresh = ("刷新进度"@, bar("bt"@, task.id@));
    seq![
        if task_active(task) {
            seq![refresh, ("取消任务"@, bar("bcc"@, task.id@))]
        } else {
            seq![refresh]
        },
        seq![("查看持仓"@, "pos"@)],
    ]
}

/// Shows a task.
pub fn show_batch_task(task: &BatchIncreaseTask) -> (reply: Reply)
    ensures
        reply.text@ == task_text(*task),
        keys(reply.keyboard@) == task_rows(*task),
{
    let refresh = with_bar("bt", task.id.as_str());
    let mut keyboard = no_rows();
    if is_task_active(task) {
        add_row(
            &mut keyboard,
            row_of_two(
                "刷新进度",
                refresh.as_str(),
                "取消任务",
                with_bar("bcc", task.id.as_str()).as_str(),
            ),
        );
    } else {
        add_row(&mut keyboard, row_of_one("刷新进度", refresh.as_str()));
    }
    add_row(&mut keyboard, row_of_one("查看持仓", "pos"));
    proof {
        assert(keys(keyboard@) =~= task_rows(*task));
    }
    Reply { text: write_task_text(task), keyboard }
}

/// A position in a list.
pub open spec fn position_line(position: Position) -> Seq<char> {
    "<b>"@ + escaped(position.token@) + "</b> · $"@ + fixed_text(position.notional_usdt, 2) + " · "@ + digits(position.leverage as nat) + "× · 扣费盈亏 "@ + signed_text(position.current_pnl_usdt, 2) + " · ROI "@ + share(position.current_roi, 2) + "%\n"@ + metrics_text(position) + "\n"@
}

fn write_position_line(position: &Position) -> (s: String)
    ensures
        s@ == position_line(*position),
{
    let mut s = join("<b>", html(position.token.as_str()).as_str());
    s.append("</b> · $");
    s.append(fixed(position.notional_usdt, 2).as_str());
    s.append(" · ");
    s.append(digits_text(position.leverage as u128).as_str());
    s.append("× · 扣费盈亏 ");
    s.append(fixed_signed(position.current_pnl_usdt, 2).as_str());
    s.append(" · ROI ");
    s.append(show_share(position.current_roi, 2).as_str());
    s.append("%\n");
    s.append(position_market_metrics(position).as_str());
    s.append("\n");
    s
}

/// The first `n` positions of a list.
pub open spec fn position_lines(positions: Seq<Position>, n: int) -> Seq<char>
    decreases n,
{
    if n <= 0 {
        "<b>当前套利仓位</b>\n\n"@
    } else {
        position_lines(positions, n - 1) + position_line(positions[n - 1])
    }
}

/// The buttons of the first `n` positions of a list.
pub open spec fn position_list_rows(positions: Seq<Position>, n: int) -> Seq<Seq<(Seq<char>, Seq<char>)>>
    decreases n,
{
    if n <= 0 {
        Seq::empty()
    } else {
        position_list_rows(positions, n - 1).push(
            seq![("管理 "@ + positions[n - 1].token@, bar("p"@, positions[n - 1].id@))],
        )
    }
}

/// Shows the positions.
pub fn show_positions(positions: &Vec<Position>) -> (reply: Reply)
    ensures
        if positions@.len() == 0 {
            one_button(reply, "当前没有套利仓位。"@, ("查看机会"@, "opps"@))
        } else {
            &&& reply.text@ == position_lines(positions@, positions@.len() as int)
            &&& keys(reply.keyboard@) == position_list_rows(positions@, positions@.len() as int).push(
                seq![("刷新"@, "pos"@), ("机会"@, "opps"@)],
            )
        },
{
    if positions.len() == 0 {
        return reply_with_one("当前没有套利仓位。".to_owned(), "查看机会", "opps");
    }
    let mut text = "<b>当前套利仓位</b>\n\n".to_owned();
    let mut keyboard = no_rows();
    let mut i: usize = 0;
    while i < positions.len()
        invariant
            i <= positions@.len(),
            text@ == position_lines(positions@, i as int),
            keys(keyboard@) == position_list_rows(positions@, i as int),
        decreases positions@.len() - i,
    {
        let position = &positions[i];
        text.append(write_position_line(position).as_str());
        let label = join("管理 ", position.token.as_str());
        add_row(
            &mut keyboard,
            row_of_one(label.as_str(), with_bar("p", position.id.as_str()).as_str()),
        );
        i = i + 1;
    }
    add_row(&mut keyboard, row_of_two("刷新", "pos", "机会", "opps"));
    Reply { text, keyboard }
}

/// The buttons below a position.
pub open spec fn position_rows(id: Seq<char>) -> Seq<Seq<(Seq<char>, Seq<char>)>> {
    seq![
        seq![
            ("加仓 $100"@, bar("ac"@, bar(id, "100"@))),
            ("加仓 $500"@, bar("ac"@, bar(id, "500"@))),
        ],
        seq![("APY<300% 自动全平"@, bar("auc"@, bar(id, "300|100|2"@)))],
        seq![("查看 24h 价差与资费"@, bar("ph"@, id))],
        seq![
            ("减仓 $100"@, bar("rc"@, bar(id, "100"@))),
            ("减仓 $500"@, bar("rc"@, bar(id, "500"@))),
        ],
        seq![
            ("杠杆 1×"@, bar("lc"@, bar(id, "1"@))),
            ("杠杆 2×"@, bar("lc"@, bar(id, "2"@))),
            ("杠杆 3×"@, bar("lc"@, bar(id, "3"@))),
        ],
        seq![("完全平仓"@, bar("cc"@, id)), ("刷新"@, bar("p"@, id)), ("返回"@, "pos"@)],
    ]
}

fn row_of_three(first: Button, second: Button, third: Button) -> (row: Vec<Button>)
    ensures
        marks(row@) == seq![
            (first.text@, first.callback_data@),
            (second.text@, second.callback_data@),
            (third.text@, third.callback_data@),
        ],
{
    let mut row: Vec<Button> = Vec::new();
    let ghost wanted = seq![
        (first.text@, first.callback_data@),
        (second.text@, second.callback_data@),
        (third.text@, third.callback_data@),
    ];
    row.push(first);
    row.push(second);
    row.push(third);
    proof {
        assert(marks(row@) =~= wanted);
    }
    row
}

/// The buttons below a position.
pub fn position_keyboard(position: &Position) -> (keyboard: Vec<Vec<Button>>)
    ensures
        keys(keyboard@) == position_rows(position.id@),
{
    let id = position.id.as_str();
    let mut keyboard = no_rows();
    add_row(
        &mut keyboard,
        row_of_two(
            "加仓 $100",
            with_bar("ac", with_bar(id, "100").as_str()).as_str(),
            "加仓 $500",
            with_bar("ac", with_bar(id, "500").as_str()).as_str(),
        ),
    );
    add_row(
        &mut keyboard,
        row_of_one("APY<300% 自动全平", with_bar("auc", with_bar(id, "300|100|2").as_str()).as_str()),
    );
    add_row(&mut keyboard, row_of_one("查看 24h 价差与资费", with_bar("ph", id).as_str()));
    add_row(
        &mut keyboard,
        row_of_two(
            "减仓 $100",
            with_bar("rc", with_bar(id, "100").as_str()).as_str(),
            "减仓 $500",
            with_bar("rc", with_bar(id, "500").as_str()).as_str(),
        ),
    );
    add_row(
        &mut keyboard,
        row_of_three(
            button("杠杆 1×", with_bar("lc", with_bar(id, "1").as_str()).as_str()),
            button("杠杆 2×", with_bar("lc", with_bar(id, "2").as_str()).as_str()),
            button("杠杆 3×", with_bar("lc", with_bar(id, "3").as_str()).as_str()),
        ),
    );
    add_row(
        &mut keyboard,
        row_of_three(
            button("完全平仓", with_bar("cc", id).as_str()),
            button("刷新", with_bar("p", id).as_str()),
            button("返回", "pos"),
        ),
    );
    proof {
        assert(keys(keyboard@) =~= position_rows(position.id@));
    }
    keyboard
}

/// What the buttons below a position send fits what Telegram takes: with a name
/// of up to fifty characters none sends more than sixty-four.
pub proof fn lemma_position_buttons_fit(id: Seq<char>, row: int, column: int)
    requires
        id.len() <= 50,
        0 <= row < position_rows(id).len(),
        0 <= column < position_rows(id)[row].len(),
    ensures
        position_rows(id)[row][column].1.len() <= 64,
{
    reveal_strlit("ac");
    reveal_strlit("auc");
    reveal_strlit("ph");
    reveal_strlit("rc");
    reveal_strlit("lc");
    reveal_strlit("cc");
    reveal_strlit("p");
    reveal_strlit("pos");
    reveal_strlit("|");
    reveal_strlit("100");
    reveal_strlit("500");
    reveal_strlit("300|100|2");
    reveal_strlit("1");
    reveal_strlit("2");
    reveal_strlit("3");
}

/// A position, as it is shown with what trading it costs.
pub open spec fn position_text(position: Position, fees: Double) -> Seq<char> {
    "<b>"@ + escaped(position.token@) + "/USDT</b> · 每腿约 $"@ + fixed_text(position.notional_usdt, 2) + " · "@ + digits(position.leverage as nat) + "×\n\n🟢 LONG "@ + escaped(position.long.exchange@) + ": "@ + fixed_text(position.long.quantity, 6) + " @ "@ + fixed_text(position.long.mark_price, 6) + "\n🔴 SHORT "@ + escaped(position.short.exchange@) + ": "@ + fixed_text(position.short.quantity, 6) + " @ "@ + fixed_text(position.short.mark_price, 6) + "\n未实现盈亏："@ + signed_text(position.unrealized_pnl, 4) + " USDT\n累计 Funding："@ + signed_text(position.funding_earned, 4) + " USDT\n预计往返手续费：-"@ + fixed_text(fees, 4) + " USDT\n扣费盈亏："@ + signed_text(position.current_pnl_usdt, 4) + " USDT\n当前 ROI："@ + share(position.current_roi, 3) + "%（保证金基数 $"@ + fixed_text(position.roi_basis_usdt, 2) + "）\n"@ + metrics_text(position)
}

fn write_position_text(position: &Position, fees: Double) -> (s: String)
    ensures
        s@ == position_text(*position, fees),
{
    let mut s = join("<b>", html(position.token.as_str()).as_str());
    s.append("/USDT</b> · 每腿约 $");
    s.append(fixed(position.notional_usdt, 2).as_str());
    s.append(" · ");
    s.append(digits_text(position.leverage as u128).as_str());
    s.append("×\n\n🟢 LONG ");
    s.append(html(position.long.exchange.as_str()).as_str());
    s.append(": ");
    s.append(fixed(position.long.quantity, 6).as_str());
    s.append(" @ ");
    s.append(fixed(position.long.mark_price, 6).as_str());
    s.append("\n🔴 SHORT ");
    s.append(html(position.short.exchange.as_str()).as_str());
    s.append(": ");
    s.append(fixed(position.short.quantity, 6).as_str());
    s.append(" @ ");
    s.append(fixed(position.short.mark_price, 6).as_str());
    s.append("\n未实现盈亏：");
    s.append(fixed_signed(position.unrealized_pnl, 4).as_str());
    s.append(" USDT\n累计 Funding：");
    s.append(fixed_signed(position.funding_earned, 4).as_str());
    s.append(" USDT\n预计往返手续费：-");
    s.append(fixed(fees, 4).as_str());
    s.append(" USDT\n扣费盈亏：");
    s.append(fixed_signed(position.current_pnl_usdt, 4).as_str());
    s.append(" USDT\n当前 ROI：");
    s.append(show_share(position.current_roi, 3).as_str());
    s.append("%（保证金基数 $");
    s.append(fixed(position.roi_basis_usdt, 2).as_str());
    s.append("）\n");
    s.append(position_market_metrics(position).as_str());
    s
}

/// Shows a position with what trading it costs.
pub fn show_position(position: &Position, fees: Double) -> (reply: Reply)
    ensures
        reply.text@ == position_text(*position, fees),
        keys(reply.keyboard@) == position_rows(position.id@),
{
    Reply { text: write_position_text(position, fees), keyboard: position_keyboard(position) }
}

/// The account, as it is shown.
pub open spec fn account_head(account: AccountSummary) -> Seq<char> {
    "<b>账户概览 · "@ + escaped(account.mode@) + "</b>\n总权益 $"@ + fixed_text(account.equity_usdt, 2) + "\n可用 $"@ + fixed_text(account.available_usdt, 2) + "\n未实现 "@ + signed_text(account.unrealized_pnl, 2) + "\n已实现 "@ + signed_text(account.realized_pnl, 2) + "\n\n"@
}

fn write_account_head(account: &AccountSummary) -> (s: String)
    ensures
        s@ == account_head(*account),
{
    let mut s = join("<b>账户概览 · ", html(account.mode.as_str()).as_str());
    s.append("</b>\n总权益 $");
    s.append(fixed(account.equity_usdt, 2).as_str());
    s.append("\n可用 $");
    s.append(fixed(account.available_usdt, 2).as_str());
    s.append("\n未实现 ");
    s.append(fixed_signed(account.unrealized_pnl, 2).as_str());
    s.append("\n已实现 ");
    s.append(fixed_signed(account.realized_pnl, 2).as_str());
    s.append("\n\n");
    s
}

/// The account at an exchange.
pub open spec fn exchange_line(balance: ExchangeBalance) -> Seq<char> {
    "<b>"@ + escaped(balance.exchange@) + "</b>：可用 $"@ + fixed_text(balance.available_usdt, 2) + " / 权益 $"@ + fixed_text(balance.equity_usdt, 2) + "\n"@
}

fn write_exchange_line(balance: &ExchangeBalance) -> (s: String)
    ensures
        s@ == exchange_line(*balance),
{
    let mut s = join("<b>", html(balance.exchange.as_str()).as_str());
    s.append("</b>：可用 $");
    s.append(fixed(balance.available_usdt, 2).as_str());
    s.append(" / 权益 $");
    s.append(fixed(balance.equity_usdt, 2).as_str());
    s.append("\n");
    s
}

/// The account with the first `n` exchanges.
pub open spec fn account_text(account: AccountSummary, n: int) -> Seq<char>
    decreases n,
{
    if n <= 0 {
        account_head(account)
    } else {
        account_text(account, n - 1) + exchange_line(account.exchanges@[n - 1])
    }
}

/// Shows the account.
pub fn show_account(account: &AccountSummary) -> (reply: Reply)
    ensures
        two_buttons(
            reply,
            account_text(*account, account.exchanges@.len() as int),
            ("刷新"@, "acct"@),
            ("持仓"@, "pos"@),
        ),
{
    let mut text = write_account_head(account);
    let mut i: usize = 0;
    while i < account.exchanges.len()
        invariant
            i <= account.exchanges@.len(),
            text@ == account_text(*account, i as int),
        decreases account.exchanges@.len() - i,
    {
        text.append(write_exchange_line(&account.exchanges[i]).as_str());
        i = i + 1;
    }
    reply_with_two(text, "刷新", "acct", "持仓", "pos")
}

/// Names with a mark between them.
pub open spec fn listed(names: Seq<String>, n: int) -> Seq<char>
    decreases n,
{
    if n <= 0 {
        Seq::empty()
    } else if n == 1 {
        names[0]@
    } else {
        listed(names, n - 1) + "、"@ + names[n - 1]@
    }
}

/// The tokens that are watched.
pub open spec fn watched_text(names: Seq<String>) -> Seq<char> {
    if names.len() == 0 {
        "等待识别"@
    } else {
        listed(names, names.len() as int)
    }
}

fn write_watched(names: &Vec<String>) -> (s: String)
    ensures
        s@ == watched_text(names@),
{
    if names.len() == 0 {
        return "等待识别".to_owned();
    }
    let mut s = names[0].clone();
    let mut i: usize = 1;
    while i < names.len()
        invariant
            1 <= i <= names@.len(),
            s@ == listed(names@, i as int),
        decreases names@.len() - i,
    {
        s.append("、");
        s.append(names[i].as_str());
        i = i + 1;
    }
    s
}

/// Whether a watch is on.
pub open spec fn enabled_text(enabled: bool) -> Seq<char> {
    if enabled {
        "运行中"@
    } else {
        "未启用"@
    }
}

fn enabled_label(enabled: bool) -> (s: &'static str)
    ensures
        s@ == enabled_text(enabled),
{
    if enabled {
        "运行中"
    } else {
        "未启用"
    }
}

/// The watch over hedges, as it is shown.
pub open spec fn protection_head(status: HedgeProtectionStatus) -> Seq<char> {
    "<b>孤腿仓位保护</b>\n状态："@ + enabled_text(status.enabled) + "\n触发条件：仅当一条腿不存在时退出另一条腿\n双腿偏差：不自动调仓\n孤腿退出：每单 $"@ + fixed_text(status.order_notional_usdt, 2) + " / "@ + fixed_text(status.interval_seconds, 1) + "s\n保护标的："@ + watched_text(status.protected_tokens@)
}

fn write_protection_head(status: &HedgeProtectionStatus) -> (s: String)
    ensures
        s@ == protection_head(*status),
{
    let mut s = join("<b>孤腿仓位保护</b>\n状态：", enabled_label(status.enabled));
    s.append("\n触发条件：仅当一条腿不存在时退出另一条腿\n双腿偏差：不自动调仓\n孤腿退出：每单 $");
    s.append(fixed(status.order_notional_usdt, 2).as_str());
    s.append(" / ");
    s.append(fixed(status.interval_seconds, 1).as_str());
    s.append("s\n保护标的：");
    s.append(write_watched(&status.protected_tokens).as_str());
    s
}

/// A number, or another one where it is unknown.
pub open spec fn or_else(x: Option<Double>, other: Double) -> Double {
    match x {
        Some(v) => v,
        None => other,
    }
}

fn known_or(x: Option<Double>, other: Double) -> (r: Double)
    ensures
        r == or_else(x, other),
{
    match x {
        Some(v) => v,
        None => other,
    }
}

/// Why an event failed, where it did.
pub open spec fn event_fault(event: HedgeProtectionEvent) -> Seq<char> {
    if event.status@ == "failed"@ {
        "\n失败："@ + escaped(event.message@)
    } else {
        ""@
    }
}

fn write_event_fault(event: &HedgeProtectionEvent) -> (s: String)
    ensures
        s@ == event_fault(*event),
{
    if same(event.status.as_str(), "failed") {
        join("\n失败：", html(event.message.as_str()).as_str())
    } else {
        "".to_owned()
    }
}

/// The value of a leg before an event.
pub open spec fn long_before(event: HedgeProtectionEvent) -> Double {
    or_else(event.initial_long_notional_usdt, Double { bits: ZERO })
}

/// The value of a leg before an event.
pub open spec fn short_before(event: HedgeProtectionEvent) -> Double {
    or_else(event.initial_short_notional_usdt, Double { bits: ZERO })
}

/// What was done about a leg that stood alone.
pub open spec fn event_text(event: HedgeProtectionEvent) -> Seq<char> {
    "\n\n<b>"@ + escaped(event.token@) + "</b>：LONG $"@ + fixed_text(long_before(event), 2) + " → $"@ + fixed_text(or_else(event.final_long_notional_usdt, long_before(event)), 2) + "；SHORT $"@ + fixed_text(short_before(event), 2) + " → $"@ + fixed_text(or_else(event.final_short_notional_usdt, short_before(event)), 2) + " · "@ + digits(event.orders@.len()) + " 笔"@ + event_fault(event)
}

fn write_event_text(event: &HedgeProtectionEvent) -> (s: String)
    ensures
        s@ == event_text(*event),
{
    let mut s = join("\n\n<b>", html(event.token.as_str()).as_str());
    s.append("</b>：LONG $");
    s.append(fixed(known_or(event.initial_long_notional_usdt, Double { bits: ZERO }), 2).as_str());
    s.append(" → $");
    s.append(fixed(known_or(event.final_long_notional_usdt, known_or(event.initial_long_notional_usdt, Double { bits: ZERO })), 2).as_str());
    s.append("；SHORT $");
    s.append(fixed(known_or(event.initial_short_notional_usdt, Double { bits: ZERO }), 2).as_str());
    s.append(" → $");
    s.append(fixed(known_or(event.final_short_notional_usdt, known_or(event.initial_short_notional_usdt, Double { bits: ZERO })), 2).as_str());
    s.append(" · ");
    s.append(digits_text(event.orders.len() as u128).as_str());
    s.append(" 笔");
    s.append(write_event_fault(event).as_str());
    s
}

/// Whether an event is worth showing: something was done, or it failed.
pub open spec fn notable(event: HedgeProtectionEvent) -> bool {
    event.orders@.len() > 0 || event.status@ == "failed"@
}

/// The last notable events among the first `n`, at most so many, the latest
/// first.
pub open spec fn events_text(events: Seq<HedgeProtectionEvent>, n: int, left: nat) -> Seq<char>
    decreases n,
{
    if n <= 0 || left == 0 {
        Seq::empty()
    } else if notable(events[n - 1]) {
        event_text(events[n - 1]) + events_text(events, n - 1, (left - 1) as nat)
    } else {
        events_text(events, n - 1, left)
    }
}

/// Shows the watch over hedges, with its last five notable events.
pub fn show_protection(status: &HedgeProtectionStatus) -> (reply: Reply)
    ensures
        one_button(
            reply,
            protection_head(*status) + events_text(status.events@, status.events@.len() as int, 5),
            ("刷新"@, "protect"@),
        ),
{
    let mut text = write_protection_head(status);
    let ghost head = text@;
    let mut n: usize = status.events.len();
    let mut left: usize = 5;
    let ghost whole = events_text(status.events@, n as int, 5);
    while n > 0 && left > 0
        invariant
            n <= status.events@.len(),
            left <= 5,
            text@ + events_text(status.events@, n as int, left as nat) == head + whole,
        decreases n,
    {
        let event = &status.events[n - 1];
        if event.orders.len() > 0 || same(event.status.as_str(), "failed") {
            let ghost before = text@;
            let piece = write_event_text(event);
            text.append(piece.as_str());
            left = left - 1;
            proof {
                let rest = events_text(status.events@, n - 1, left as nat);
                assert(before + (piece@ + rest) =~= text@ + rest);
            }
        }
        n = n - 1;
    }
    proof {
        assert(text@ + Seq::<char>::empty() =~= text@);
    }
    reply_with_one(text, "刷新", "protect")
}

/// A text, or a dash where there is none.
pub open spec fn text_or_dash(text: Option<String>) -> Seq<char> {
    match text {
        Some(t) => escaped(t@),
        None => "—"@,
    }
}

fn write_or_dash(text: &Option<String>) -> (s: String)
    ensures
        s@ == text_or_dash(*text),
{
    match text {
        Some(t) => html(t.as_str()),
        None => "—".to_owned(),
    }
}

/// The trade of the strategy, as it is shown.
pub open spec fn strategy_text(trade: SpreadStrategyTrade) -> Seq<char> {
    "<b>价差回归策略 · "@ + escaped(trade.token@) + "</b>\n状态："@ + escaped(trade.status@) + "\n入场偏离："@ + share(trade.entry_deviation, 3) + "%\n入场价差："@ + share(trade.entry_spread, 3) + "%\n当前 ROI："@ + share_or(trade.current_roi, 3, "—"@) + "\n止盈目标："@ + share_or(trade.target_roi, 3, "—"@) + "\n退出原因："@ + text_or_dash(trade.exit_reason) + fault_text("\n错误："@, trade.error)
}

fn write_strategy_text(trade: &SpreadStrategyTrade) -> (s: String)
    ensures
        s@ == strategy_text(*trade),
{
    let mut s = join("<b>价差回归策略 · ", html(trade.token.as_str()).as_str());
    s.append("</b>\n状态：");
    s.append(html(trade.status.as_str()).as_str());
    s.append("\n入场偏离：");
    s.append(show_share(trade.entry_deviation, 3).as_str());
    s.append("%\n入场价差：");
    s.append(show_share(trade.entry_spread, 3).as_str());
    s.append("%\n当前 ROI：");
    s.append(show_share_or(trade.current_roi, 3, "—").as_str());
    s.append("\n止盈目标：");
    s.append(show_share_or(trade.target_roi, 3, "—").as_str());
    s.append("\n退出原因：");
    s.append(write_or_dash(&trade.exit_reason).as_str());
    s.append(write_fault("\n错误：", &trade.error).as_str());
    s
}

/// Shows what the strategy is in.
pub fn show_spread_strategy(trade: Option<&SpreadStrategyTrade>) -> (reply: Reply)
    ensures
        bare(
            reply,
            match trade {
                None => "<b>价差回归策略</b>\n状态：等待价差偏离达到 1%"@,
                Some(t) => strategy_text(*t),
            },
        ),
{
    match trade {
        None => bare_reply("<b>价差回归策略</b>\n状态：等待价差偏离达到 1%".to_owned()),
        Some(t) => bare_reply(write_strategy_text(t)),
    }
}

/// The present yield of a rule.
pub open spec fn yield_text(rule: AutoCloseRule) -> Seq<char> {
    match rule.current_apy_percent {
        Some(x) => fixed_text(x, 1) + "%"@,
        None => "等待检查"@,
    }
}

fn write_yield(rule: &AutoCloseRule) -> (s: String)
    ensures
        s@ == yield_text(*rule),
{
    match rule.current_apy_percent {
        Some(x) => join(fixed(x, 1).as_str(), "%"),
        None => "等待检查".to_owned(),
    }
}

/// A rule in a list.
pub open spec fn rule_text(rule: AutoCloseRule) -> Seq<char> {
    "<b>"@ + escaped(rule.token@) + "</b> · "@ + escaped(rule.status@) + "\n当前 APY "@ + yield_text(rule) + " / 阈值 "@ + fixed_text(rule.threshold_apy_percent, 1) + "%\n每单 $"@ + fixed_text(rule.order_notional_usdt, 2) + " · "@ + fixed_text(rule.interval_seconds, 1) + "s · 已执行 $"@ + fixed_text(rule.completed_notional_usdt, 2) + "\n\n"@
}

fn write_rule_text(rule: &AutoCloseRule) -> (s: String)
    ensures
        s@ == rule_text(*rule),
{
    let mut s = join("<b>", html(rule.token.as_str()).as_str());
    s.append("</b> · ");
    s.append(html(rule.status.as_str()).as_str());
    s.append("\n当前 APY ");
    s.append(write_yield(rule).as_str());
    s.append(" / 阈值 ");
    s.append(fixed(rule.threshold_apy_percent, 1).as_str());
    s.append("%\n每单 $");
    s.append(fixed(rule.order_notional_usdt, 2).as_str());
    s.append(" · ");
    s.append(fixed(rule.interval_seconds, 1).as_str());
    s.append("s · 已执行 $");
    s.append(fixed(rule.completed_notional_usdt, 2).as_str());
    s.append("\n\n");
    s
}

/// Whether a rule is in force.
pub open spec fn in_force(rule: AutoCloseRule) -> bool {
    rule.status@ == "armed"@ || rule.status@ == "triggered"@ || rule.status@ == "closing"@
}

/// How many of the first `n` rules are in force.
pub open spec fn forces(rules: Seq<AutoCloseRule>, n: int) -> nat
    decreases n,
{
    if n <= 0 {
        0
    } else {
        forces(rules, n - 1) + if in_force(rules[n - 1]) {
            1nat
        } else {
            0nat
        }
    }
}

/// The first `n` rules, as far as they are in force.
pub open spec fn rules_text(rules: Seq<AutoCloseRule>, n: int) -> Seq<char>
    decreases n,
{
    if n <= 0 {
        "<b>自动平仓规则</b>\n\n"@
    } else if in_force(rules[n - 1]) {
        rules_text(rules, n - 1) + rule_text(rules[n - 1])
    } else {
        rules_text(rules, n - 1)
    }
}

/// The buttons of the first `n` rules: one that is armed can be cancelled.
pub open spec fn rule_rows(rules: Seq<AutoCloseRule>, n: int) -> Seq<Seq<(Seq<char>, Seq<char>)>>
    decreases n,
{
    if n <= 0 {
        Seq::empty()
    } else if rules[n - 1].status@ == "armed"@ {
        rule_rows(rules, n - 1).push(seq![("取消 "@ + rules[n - 1].token@, bar("ax"@, rules[n - 1].id@))])
    } else {
        rule_rows(rules, n - 1)
    }
}

/// Shows the rules that are in force.
pub fn show_auto_close_rules(rules: &Vec<AutoCloseRule>) -> (reply: Reply)
    ensures
        if forces(rules@, rules@.len() as int) == 0 {
            bare(reply, "当前没有生效中的自动平仓规则。"@)
        } else {
            &&& reply.text@ == rules_text(rules@, rules@.len() as int)
            &&& keys(reply.keyboard@) == rule_rows(rules@, rules@.len() as int).push(
                seq![("刷新"@, "al"@), ("持仓"@, "pos"@)],
            )
        },
{
    let mut text = "<b>自动平仓规则</b>\n\n".to_owned();
    let mut keyboard = no_rows();
    let mut any: bool = false;
    let mut i: usize = 0;
    while i < rules.len()
        invariant
            i <= rules@.len(),
            any == (forces(rules@, i as int) > 0),
            text@ == rules_text(rules@, i as int),
            keys(keyboard@) == rule_rows(rules@, i as int),
        decreases rules@.len() - i,
    {
        let rule = &rules[i];
        let armed: bool = same(rule.status.as_str(), "armed");
        if armed || same(rule.status.as_str(), "triggered") || same(rule.status.as_str(), "closing") {
            any = true;
            text.append(write_rule_text(rule).as_str());
            if armed {
                let label = join("取消 ", rule.token.as_str());
                add_row(
                    &mut keyboard,
                    row_of_one(label.as_str(), with_bar("ax", rule.id.as_str()).as_str()),
                );
            }
        }
        i = i + 1;
    }
    if !any {
        return bare_reply("当前没有生效中的自动平仓规则。".to_owned());
    }
    add_row(&mut keyboard, row_of_two("刷新", "al", "持仓", "pos"));
    Reply { text, keyboard }
}

/// Explains the commands.
pub fn send_help() -> (reply: Reply)
    ensures
        reply.text@ == "<b>ArbiView Telegram Bot</b>\n\n/opportunities — 查询前 10 个资费套利机会\n/positions — 查询并管理仓位\n/account — 查询账户余额和盈亏\n/protection — 查询孤腿保护状态和事件\n/spread_strategy — 查询价差回归策略状态\n/open TOKEN 金额 [杠杆] — 开仓或加仓；新仓默认 5×，加仓沿用当前杠杆\n/batch_open TOKEN 目标 单笔 间隔 [杠杆] — 市价批量加仓\n/guard_open TOKEN 目标 [杠杆] [门槛%] — 按实时盘口容量保价差限价开仓\n/reduce TOKEN 金额/all — 减仓或全平\n/batch_reduce TOKEN 金额/all 单笔 间隔 — 批量减仓\n/no_loss_close TOKEN 金额/all [最高平仓价差%] — 保价差且不亏限价平仓\n/leverage TOKEN 杠杆 — 调整双腿杠杆\n/close TOKEN — 完全平仓\n/autoclose TOKEN APY [单笔] [间隔] — APY 跌破阈值后批量全平\n/autoclose_list — 查询自动平仓规则\n/autoclose_cancel RULE_ID — 取消自动平仓规则\n/help — 显示帮助\n\n示例：<code>/open DEXE 100 2</code>\n<code>/batch_open DEXE 1000 100 2 3</code>\n<code>/guard_open DEXE 1000 5 -1.5</code>\n<code>/batch_reduce DEXE all 100 2</code>\n<code>/no_loss_close DEXE all -0.5</code>\n所有交易动作均需按钮二次确认。"@,
        keys(reply.keyboard@) == seq![
            seq![("套利机会"@, "opps"@), ("当前持仓"@, "pos"@)],
            seq![("账户概览"@, "acct"@)],
        ],
{
    let mut keyboard = no_rows();
    add_row(&mut keyboard, row_of_two("套利机会", "opps", "当前持仓", "pos"));
    add_row(&mut keyboard, row_of_one("账户概览", "acct"));
    proof {
        assert(keys(keyboard@) =~= seq![
            seq![("套利机会"@, "opps"@), ("当前持仓"@, "pos"@)],
            seq![("账户概览"@, "acct"@)],
        ]);
    }
    Reply { text: "<b>ArbiView Telegram Bot</b>\n\n/opportunities — 查询前 10 个资费套利机会\n/positions — 查询并管理仓位\n/account — 查询账户余额和盈亏\n/protection — 查询孤腿保护状态和事件\n/spread_strategy — 查询价差回归策略状态\n/open TOKEN 金额 [杠杆] — 开仓或加仓；新仓默认 5×，加仓沿用当前杠杆\n/batch_open TOKEN 目标 单笔 间隔 [杠杆] — 市价批量加仓\n/guard_open TOKEN 目标 [杠杆] [门槛%] — 按实时盘口容量保价差限价开仓\n/reduce TOKEN 金额/all — 减仓或全平\n/batch_reduce TOKEN 金额/all 单笔 间隔 — 批量减仓\n/no_loss_close TOKEN 金额/all [最高平仓价差%] — 保价差且不亏限价平仓\n/leverage TOKEN 杠杆 — 调整双腿杠杆\n/close TOKEN — 完全平仓\n/autoclose TOKEN APY [单笔] [间隔] — APY 跌破阈值后批量全平\n/autoclose_list — 查询自动平仓规则\n/autoclose_cancel RULE_ID — 取消自动平仓规则\n/help — 显示帮助\n\n示例：<code>/open DEXE 100 2</code>\n<code>/batch_open DEXE 1000 100 2 3</code>\n<code>/guard_open DEXE 1000 5 -1.5</code>\n<code>/batch_reduce DEXE all 100 2</code>\n<code>/no_loss_close DEXE all -0.5</code>\n所有交易动作均需按钮二次确认。".to_owned(), keyboard }
}

/// What is said of an opening.
pub open spec fn opened_text(response: TradeResponse, amount: Double, leverage: Seq<char>) -> Seq<char> {
    "✅ "@ + escaped(response.message@) + "\n<b>"@ + escaped(response.position.token@) + "</b> · 每腿 $"@ + fixed_text(amount, 2) + " · "@ + leverage + "×\n当前仓位 $"@ + fixed_text(response.position.notional_usdt, 2)
}

fn write_opened_text(response: &TradeResponse, amount: Double, leverage: &str) -> (s: String)
    ensures
        s@ == opened_text(*response, amount, leverage@),
{
    let mut s = join("✅ ", html(response.message.as_str()).as_str());
    s.append("\n<b>");
    s.append(html(response.position.token.as_str()).as_str());
    s.append("</b> · 每腿 $");
    s.append(fixed(amount, 2).as_str());
    s.append(" · ");
    s.append(leverage);
    s.append("×\n当前仓位 $");
    s.append(fixed(response.position.notional_usdt, 2).as_str());
    s
}

/// What is said of a reduction.
pub open spec fn reduced_text(response: TradeResponse) -> Seq<char> {
    "✅ "@ + escaped(response.message@) + "\n<b>"@ + escaped(response.position.token@) + "</b> 当前每腿约 $"@ + fixed_text(response.position.notional_usdt, 2)
}

fn write_reduced_text(response: &TradeResponse) -> (s: String)
    ensures
        s@ == reduced_text(*response),
{
    let mut s = join("✅ ", html(response.message.as_str()).as_str());
    s.append("\n<b>");
    s.append(html(response.position.token.as_str()).as_str());
    s.append("</b> 当前每腿约 $");
    s.append(fixed(response.position.notional_usdt, 2).as_str());
    s
}

/// What is said of a closing.
pub open spec fn closed_text(response: TradeResponse) -> Seq<char> {
    "✅ "@ + escaped(response.message@) + "\n<b>"@ + escaped(response.position.token@) + "</b> 已平仓"@
}

fn write_closed_text(response: &TradeResponse) -> (s: String)
    ensures
        s@ == closed_text(*response),
{
    let mut s = join("✅ ", html(response.message.as_str()).as_str());
    s.append("\n<b>");
    s.append(html(response.position.token.as_str()).as_str());
    s.append("</b> 已平仓");
    s
}

/// What is said of a rule that was set.
pub open spec fn rule_set_text(rule: AutoCloseRule) -> Seq<char> {
    "✅ 自动平仓已启用\n<b>"@ + escaped(rule.token@) + "</b> APY 低于 "@ + fixed_text(rule.threshold_apy_percent, 1) + "% 时触发\n每单 $"@ + fixed_text(rule.order_notional_usdt, 2) + " · 间隔 "@ + fixed_text(rule.interval_seconds, 1) + "s · 直到全部平仓"@
}

fn write_rule_set_text(rule: &AutoCloseRule) -> (s: String)
    ensures
        s@ == rule_set_text(*rule),
{
    let mut s = join("✅ 自动平仓已启用\n<b>", html(rule.token.as_str()).as_str());
    s.append("</b> APY 低于 ");
    s.append(fixed(rule.threshold_apy_percent, 1).as_str());
    s.append("% 时触发\n每单 $");
    s.append(fixed(rule.order_notional_usdt, 2).as_str());
    s.append(" · 间隔 ");
    s.append(fixed(rule.interval_seconds, 1).as_str());
    s.append("s · 直到全部平仓");
    s
}

/// Tells of an opening.
pub fn tell_opened(response: &TradeResponse, amount: Double, leverage: &str) -> (reply: Reply)
    ensures
        reply.text@ == opened_text(*response, amount, leverage@),
        keys(reply.keyboard@) == position_rows(response.position.id@),
{
    Reply {
        text: write_opened_text(response, amount, leverage),
        keyboard: position_keyboard(&response.position),
    }
}

/// Tells of a reduction.
pub fn tell_reduced(response: &TradeResponse) -> (reply: Reply)
    ensures
        reply.text@ == reduced_text(*response),
        keys(reply.keyboard@) == position_rows(response.position.id@),
{
    Reply { text: write_reduced_text(response), keyboard: position_keyboard(&response.position) }
}

/// Tells of a leverage that was set.
pub fn tell_leverage(response: &TradeResponse) -> (reply: Reply)
    ensures
        reply.text@ == "✅ "@ + escaped(response.message@),
        keys(reply.keyboard@) == position_rows(response.position.id@),
{
    Reply {
        text: join("✅ ", html(response.message.as_str()).as_str()),
        keyboard: position_keyboard(&response.position),
    }
}

/// Tells of a closing.
pub fn tell_closed(response: &TradeResponse) -> (reply: Reply)
    ensures
        one_button(reply, closed_text(*response), ("查看持仓"@, "pos"@)),
{
    reply_with_one(write_closed_text(response), "查看持仓", "pos")
}

/// Tells of a rule that was set.
pub fn tell_rule_set(rule: &AutoCloseRule) -> (reply: Reply)
    ensures
        two_buttons(
            reply,
            rule_set_text(*rule),
            ("查看规则"@, "al"@),
            ("返回持仓"@, bar("p"@, rule.position_id@)),
        ),
{
    reply_with_two(
        write_rule_set_text(rule),
        "查看规则",
        "al",
        "返回持仓",
        with_bar("p", rule.position_id.as_str()).as_str(),
    )
}

/// Tells of a rule that was cancelled.
pub fn tell_rule_cancelled(rule: &AutoCloseRule) -> (reply: Reply)
    ensures
        one_button(
            reply,
            "✅ 已取消 <b>"@ + escaped(rule.token@) + "</b> 的自动平仓规则"@,
            ("查看规则"@, "al"@),
        ),
{
    let mut text = join("✅ 已取消 <b>", html(rule.token.as_str()).as_str());
    text.append("</b> 的自动平仓规则");
    reply_with_one(text, "查看规则", "al")
}

/// Tells what went wrong.
pub fn tell_error(error: &str) -> (reply: Reply)
    ensures
        bare(reply, "❌ "@ + escaped(error@)),
{
    bare_reply(join("❌ ", html(error).as_str()))
}

} // verus!
