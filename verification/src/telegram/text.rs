//! How the bot shows things.

use crate::models::{Leg, Position};
use crate::num::constants::{BILLION, HUNDRED, MILLION, ONE, SIXTY, THOUSAND, ZERO};
use crate::num::decimal::{fixed, fixed_signed, fixed_text, signed_text};
use crate::num::Double;
use crate::text::{chars_of, join, same};
use vstd::prelude::*;
use vstd::string::StringExecFns;

verus! {

/// What a character is written as in HTML.
pub open spec fn escaped_char(c: char) -> Seq<char> {
    if c == '&' {
        "&amp;"@
    } else if c == '<' {
        "&lt;"@
    } else if c == '>' {
        "&gt;"@
    } else {
        seq![c]
    }
}

/// What a text is written as in HTML.
pub open spec fn escaped(s: Seq<char>) -> Seq<char>
    decreases s.len(),
{
    if s.len() == 0 {
        Seq::empty()
    } else {
        escaped(s.drop_last()) + escaped_char(s.last())
    }
}

/// A text as HTML.
pub fn html(value: &str) -> (r: String)
    ensures
        r@ == escaped(value@),
{
    let v = chars_of(value);
    let mut r = String::new();
    let mut i: usize = 0;
    proof {
        assert(v@.take(0) =~= Seq::<char>::empty());
    }
    while i < v.len()
        invariant
            i <= v@.len(),
            v@ == value@,
            r@ == escaped(v@.take(i as int)),
        decreases v@.len() - i,
    {
        proof {
            assert(v@.take(i as int + 1).drop_last() =~= v@.take(i as int));
            assert(v@.take(i as int + 1).last() == v@[i as int]);
        }
        let c = v[i];
        if c == '&' {
            r.append("&amp;");
        } else if c == '<' {
            r.append("&lt;");
        } else if c == '>' {
            r.append("&gt;");
        } else {
            let ghost before = r@;
            r.push(c);
            proof {
                assert(r@ =~= before + seq![c]);
            }
        }
        i = i + 1;
    }
    proof {
        assert(v@.take(v@.len() as int) =~= v@);
    }
    r
}

/// No text can open or close a tag of the message that it stands in.
pub proof fn lemma_html_has_no_tags(s: Seq<char>, i: int)
    requires
        0 <= i < escaped(s).len(),
    ensures
        escaped(s)[i] != '<',
        escaped(s)[i] != '>',
    decreases s.len(),
{
    if s.len() > 0 {
        let before = escaped(s.drop_last());
        reveal_strlit("&amp;");
        reveal_strlit("&lt;");
        reveal_strlit("&gt;");
        if i < before.len() {
            lemma_html_has_no_tags(s.drop_last(), i);
            assert(escaped(s)[i] == before[i]);
        } else {
            assert(escaped(s)[i] == escaped_char(s.last())[i - before.len()]);
        }
    }
}

/// A text without the characters that HTML gives a meaning to is shown as it is.
pub proof fn lemma_html_keeps_plain_text(s: Seq<char>)
    requires
        forall|i: int| 0 <= i < s.len() ==> (#[trigger] s[i]) != '&' && s[i] != '<' && s[i] != '>',
    ensures
        escaped(s) == s,
    decreases s.len(),
{
    if s.len() > 0 {
        lemma_html_keeps_plain_text(s.drop_last());
        assert(s.last() == s[s.len() - 1]);
        assert(s.drop_last() + seq![s.last()] =~= s);
    }
}

/// Tags after a name.
pub open spec fn tags_after(tags: Seq<String>, n: int) -> Seq<char>
    decreases n,
{
    if n <= 0 {
        Seq::empty()
    } else if n == 1 {
        "#"@ + escaped(tags[0]@)
    } else {
        tags_after(tags, n - 1) + " "@ + "#"@ + escaped(tags[n - 1]@)
    }
}

/// How tags are shown: nothing where there are none.
pub open spec fn tags_text(tags: Seq<String>) -> Seq<char> {
    if tags.len() == 0 {
        Seq::empty()
    } else {
        " · "@ + tags_after(tags, tags.len() as int)
    }
}

/// How tags are shown.
pub fn telegram_tags(tags: &Vec<String>) -> (r: String)
    ensures
        r@ == tags_text(tags@),
{
    if tags.len() == 0 {
        let r = String::new();
        proof {
            assert(r@ =~= Seq::<char>::empty());
        }
        return r;
    }
    let mut r = join("#", html(tags[0].as_str()).as_str());
    let mut i: usize = 1;
    while i < tags.len()
        invariant
            1 <= i <= tags@.len(),
            r@ == tags_after(tags@, i as int),
        decreases tags@.len() - i,
    {
        r.append(" ");
        r.append("#");
        r.append(html(tags[i].as_str()).as_str());
        i = i + 1;
    }
    join(" · ", r.as_str())
}

/// How an amount of dollars is shown.
pub open spec fn compact_text(value: Double) -> Seq<char> {
    if (Double { bits: BILLION }).le_spec(value) {
        "$"@ + fixed_text(value.div_spec(Double { bits: BILLION }), 2) + "B"@
    } else if (Double { bits: MILLION }).le_spec(value) {
        "$"@ + fixed_text(value.div_spec(Double { bits: MILLION }), 2) + "M"@
    } else if (Double { bits: THOUSAND }).le_spec(value) {
        "$"@ + fixed_text(value.div_spec(Double { bits: THOUSAND }), 2) + "K"@
    } else {
        "$"@ + fixed_text(value, 2)
    }
}

/// How an amount of dollars is shown.
pub fn compact_usdt(value: Double) -> (r: String)
    ensures
        r@ == compact_text(value),
{
    if value.ge(Double { bits: BILLION }) {
        join(join("$", fixed(value.div(Double { bits: BILLION }), 2).as_str()).as_str(), "B")
    } else if value.ge(Double { bits: MILLION }) {
        join(join("$", fixed(value.div(Double { bits: MILLION }), 2).as_str()).as_str(), "M")
    } else if value.ge(Double { bits: THOUSAND }) {
        join(join("$", fixed(value.div(Double { bits: THOUSAND }), 2).as_str()).as_str(), "K")
    } else {
        join("$", fixed(value, 2).as_str())
    }
}

/// How the time until a route breaks even is shown.
pub open spec fn break_even_text(hours: Double) -> Seq<char> {
    if hours.le_spec(Double { bits: ZERO }) {
        "立即"@
    } else if hours.lt_spec(Double { bits: ONE }) {
        fixed_text(hours.mul_spec(Double { bits: SIXTY }), 0) + " 分钟"@
    } else {
        fixed_text(hours, 1) + " 小时"@
    }
}

/// How the time until a route breaks even is shown.
pub fn break_even(hours: Double) -> (r: String)
    ensures
        r@ == break_even_text(hours),
{
    if hours.le(Double { bits: ZERO }) {
        "立即".to_owned()
    } else if hours.lt(Double { bits: ONE }) {
        join(fixed(hours.mul(Double { bits: SIXTY }), 0).as_str(), " 分钟")
    } else {
        join(fixed(hours, 1).as_str(), " 小时")
    }
}

/// How a market is shown.
pub open spec fn market_text(market: Seq<char>) -> Seq<char> {
    if market == "spot"@ {
        "SPOT"@
    } else {
        "PERP"@
    }
}

/// How a market is shown.
pub fn market_label(market: &str) -> (label: &'static str)
    ensures
        label@ == market_text(market@),
{
    if same(market, "spot") {
        "SPOT"
    } else {
        "PERP"
    }
}

/// The first character of an exchange, by which buttons name it.
pub open spec fn initial(exchange: Seq<char>) -> Seq<char> {
    if exchange.len() == 0 {
        seq!['?']
    } else {
        seq![exchange[0]]
    }
}

/// The first character of an exchange.
pub fn short_exchange(exchange: &str) -> (r: String)
    ensures
        r@ == initial(exchange@),
{
    let mut r = String::new();
    if exchange.unicode_len() == 0 {
        r.push('?');
    } else {
        r.push(exchange.get_char(0));
    }
    proof {
        assert(r@ =~= initial(exchange@));
    }
    r
}

/// How the state of a task is shown.
pub open spec fn status_text(status: Seq<char>) -> Seq<char> {
    if status == "queued"@ {
        "等待执行"@
    } else if status == "running"@ {
        "执行中"@
    } else if status == "cancelling"@ {
        "正在取消"@
    } else if status == "cancelled"@ {
        "已取消"@
    } else if status == "completed"@ {
        "已完成"@
    } else if status == "failed"@ {
        "失败"@
    } else {
        status
    }
}

/// How the state of a task is shown.
pub fn batch_status(status: &str) -> (r: &str)
    ensures
        r@ == status_text(status@),
{
    if same(status, "queued") {
        "等待执行"
    } else if same(status, "running") {
        "执行中"
    } else if same(status, "cancelling") {
        "正在取消"
    } else if same(status, "cancelled") {
        "已取消"
    } else if same(status, "completed") {
        "已完成"
    } else if same(status, "failed") {
        "失败"
    } else {
        status
    }
}

/// A share as a percentage with its sign.
pub open spec fn share(x: Double, decimals: nat) -> Seq<char> {
    signed_text(x.mul_spec(Double { bits: HUNDRED }), decimals)
}

/// A share as a percentage with its sign.
pub fn show_share(x: Double, decimals: u32) -> (r: String)
    requires
        decimals <= 18,
    ensures
        r@ == share(x, decimals as nat),
{
    fixed_signed(x.mul(Double { bits: HUNDRED }), decimals)
}

/// A share as a percentage, or something else where it is unknown.
pub open spec fn share_or(x: Option<Double>, decimals: nat, other: Seq<char>) -> Seq<char> {
    match x {
        Some(v) => share(v, decimals) + "%"@,
        None => other,
    }
}

/// A share as a percentage, or something else where it is unknown.
pub fn show_share_or(x: Option<Double>, decimals: u32, other: &str) -> (r: String)
    requires
        decimals <= 18,
    ensures
        r@ == share_or(x, decimals as nat, other@),
{
    match x {
        Some(v) => join(show_share(v, decimals).as_str(), "%"),
        None => other.to_owned(),
    }
}

/// How a funding rate is shown in a history.
pub open spec fn rate_text(rate: Option<Double>) -> Seq<char> {
    match rate {
        Some(x) => share(x, 3),
        None => "—"@,
    }
}

/// How a funding rate is shown in a history.
pub fn history_rate(rate: Option<Double>) -> (r: String)
    ensures
        r@ == rate_text(rate),
{
    match rate {
        Some(x) => show_share(x, 3),
        None => "—".to_owned(),
    }
}

/// A text, filled up from the left with blanks to a width.
pub open spec fn padded(s: Seq<char>, width: nat) -> Seq<char> {
    if s.len() >= width {
        s
    } else {
        Seq::new((width - s.len()) as nat, |i: int| ' ') + s
    }
}

/// A text, filled up from the left with blanks to a width.
pub fn pad(s: &str, width: usize) -> (r: String)
    ensures
        r@ == padded(s@, width as nat),
{
    let n: usize = s.unicode_len();
    let mut r = String::new();
    let mut i: usize = n;
    proof {
        assert(r@ =~= Seq::<char>::empty());
    }
    while i < width
        invariant
            n == s@.len(),
            n <= i,
            i <= width || i == n,
            r@ == Seq::new((i - n) as nat, |k: int| ' '),
        decreases width - i,
    {
        r.push(' ');
        i = i + 1;
        proof {
            assert(r@ =~= Seq::new((i - n) as nat, |k: int| ' '));
        }
    }
    r.append(s);
    proof {
        assert(r@ =~= padded(s@, width as nat));
    }
    r
}

/// How a position does at the market.
pub open spec fn metrics_text(position: Position) -> Seq<char> {
    match (position.current_funding_per_hour, position.current_spread, position.current_apy) {
        (Some(funding), Some(spread), Some(apy)) => "资费净差 "@ + share(funding, 4) + "%/h · 价差 "@ + share(
            spread,
            3,
        ) + "% · APY "@ + share(apy, 1) + "%"@,
        _ => "资费净差 / 价差 / APY：实时行情暂不可用"@,
    }
}

/// How a position does at the market.
pub fn position_market_metrics(position: &Position) -> (r: String)
    ensures
        r@ == metrics_text(*position),
{
    match (position.current_funding_per_hour, position.current_spread, position.current_apy) {
        (Some(funding), Some(spread), Some(apy)) => {
            let mut r = join("资费净差 ", show_share(funding, 4).as_str());
            r.append("%/h · 价差 ");
            r.append(show_share(spread, 3).as_str());
            r.append("% · APY ");
            r.append(show_share(apy, 1).as_str());
            r.append("%");
            r
        },
        _ => "资费净差 / 价差 / APY：实时行情暂不可用".to_owned(),
    }
}

/// How far east of Greenwich the desk tells the time: eight hours, in seconds.
pub const DESK_OFFSET_SECONDS: i32 = 28800;

/// How a time is written so many seconds east of Greenwich, after a pattern.
pub uninterp spec fn local_time(millis: i64, offset_seconds: i32, pattern: Seq<char>) -> Option<Seq<char>>;

/// `chrono::DateTime::from_timestamp_millis`, `with_timezone` at the offset that
/// `chrono::FixedOffset::east_opt` gives, and `format`: the text is a function
/// of the time, the offset and the pattern. There is none for a time or an
/// offset that is out of range.
#[verifier::external_body]
fn format_at(millis: i64, offset_seconds: i32, pattern: &str) -> (r: Option<String>)
    requires
        pattern@ == "%m-%d %H"@ || pattern@ == "%m-%d %H:%M"@,
    ensures
        r is Some == local_time(millis, offset_seconds, pattern@) is Some,
        r is Some ==> (r->0)@ == local_time(millis, offset_seconds, pattern@)->0,
{
    let zone = chrono::FixedOffset::east_opt(offset_seconds)?;
    let time = chrono::DateTime::from_timestamp_millis(millis)?;
    Some(time.with_timezone(&zone).format(pattern).to_string())
}

/// How the desk writes a time, after a pattern.
pub open spec fn desk_time(millis: i64, pattern: Seq<char>) -> Option<Seq<char>> {
    local_time(millis, DESK_OFFSET_SECONDS, pattern)
}

/// How the desk writes a time, after a pattern.
pub(crate) fn format_desk(millis: i64, pattern: &str) -> (r: Option<String>)
    requires
        pattern@ == "%m-%d %H"@ || pattern@ == "%m-%d %H:%M"@,
    ensures
        r is Some == desk_time(millis, pattern@) is Some,
        r is Some ==> (r->0)@ == desk_time(millis, pattern@)->0,
{
    format_at(millis, DESK_OFFSET_SECONDS, pattern)
}

/// A time, or a dash where it has no text.
pub open spec fn time_or_dash(time: Option<Seq<char>>) -> Seq<char> {
    match time {
        Some(text) => text,
        None => "—"@,
    }
}

/// When the funding of a leg is settled next, and what it is, by the text of the
/// time and that of the hours between two settlements.
pub open spec fn schedule_text(leg: Leg, hours: Seq<char>, settlement: Option<Seq<char>>) -> Seq<char> {
    if leg.market@ == "spot"@ {
        "现货腿 · 无资金费结算"@
    } else {
        "资费 "@ + share(leg.rate, 4) + "% / "@ + hours + "h · 下次 "@ + time_or_dash(settlement)
    }
}

/// When the funding of a leg is settled next, and what it is.
pub fn schedule(leg: &Leg, hours: &str, settlement: Option<String>) -> (r: String)
    ensures
        r@ == schedule_text(
            *leg,
            hours@,
            match settlement {
                Some(text) => Some(text@),
                None => None,
            },
        ),
{
    if same(leg.market.as_str(), "spot") {
        return "现货腿 · 无资金费结算".to_owned();
    }
    let mut r = join("资费 ", show_share(leg.rate, 4).as_str());
    r.append("% / ");
    r.append(hours);
    r.append("h · 下次 ");
    match settlement {
        Some(text) => {
            r.append(text.as_str());
        },
        None => {
            r.append("—");
        },
    }
    r
}

/// When the funding of a leg is settled next, and what it is. `hours` is the
/// text of the hours between two settlements.
pub fn funding_schedule(leg: &Leg, hours: &str) -> (r: String)
    ensures
        r@ == schedule_text(*leg, hours@, desk_time(leg.next_funding_time, "%m-%d %H:%M"@)),
{
    let settlement = format_desk(leg.next_funding_time, "%m-%d %H:%M");
    schedule(leg, hours, settlement)
}

} // verus!
