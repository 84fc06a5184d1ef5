//! Prices and funding rates over the last day.

use crate::failure::{Failure, Reason};
use crate::json::{number, Json};
use crate::market::projection::{hour_start, period_start, HOUR_MILLIS};
use crate::models::{
    Leg, OpportunityHistoryPoint, OpportunityHistoryResponse, SpreadHistoryPoint, SpreadHistoryResponse,
};
use crate::num::constants::{HUNDRED, ZERO};
use crate::num::Double;
use crate::parsing::{trim, trimmed};
use crate::sorting::{is_stable_order, stable_order};
use crate::text::{chars_of, decimal, ends_with, finishes_with, int_text, join, same, to_ascii_uppercase, upper};
use crate::market::service::MarketService;
use vstd::prelude::*;
use vstd::string::StringExecFns;

verus! {

/// How a time is written.
#[derive(Clone, Copy, Debug, PartialEq, Eq, Structural)]
pub enum TimeForm {
    Number,
    Text,
    Either,
}

/// The time that a value gives.
pub open spec fn time_of(value: Json, form: TimeForm) -> Option<i64> {
    match form {
        TimeForm::Number => value.integer(),
        TimeForm::Text => value.spelled_integer(),
        TimeForm::Either => match value.integer() {
            Some(t) => Some(t),
            None => value.spelled_integer(),
        },
    }
}

fn read_time(value: &Json, form: TimeForm) -> (t: Option<i64>)
    ensures
        t == time_of(*value, form),
{
    match form {
        TimeForm::Number => value.as_i64(),
        TimeForm::Text => value.as_spelled_integer(),
        TimeForm::Either => match value.as_i64() {
            Some(t) => Some(t),
            None => value.as_spelled_integer(),
        },
    }
}

/// The place of a time.
pub open spec fn place_of(list: Seq<(i64, Double)>, at: i64) -> Option<int>
    decreases list.len(),
{
    if list.len() == 0 {
        None
    } else if list[0].0 == at {
        Some(0)
    } else {
        match place_of(list.drop_first(), at) {
            Some(i) => Some(i + 1),
            None => None,
        }
    }
}

fn find_time(list: &Vec<(i64, Double)>, at: i64) -> (r: Option<usize>)
    ensures
        match r {
            Some(i) => i < list@.len() && place_of(list@, at) == Some(i as int),
            None => place_of(list@, at) is None,
        },
{
    let mut i: usize = 0;
    proof {
        assert(list@.skip(0) =~= list@);
    }
    while i < list.len()
        invariant
            i <= list@.len(),
            place_of(list@, at) == match place_of(list@.skip(i as int), at) {
                Some(j) => Some(j + i),
                None => None,
            },
        decreases list@.len() - i,
    {
        proof {
            assert(list@.skip(i as int)[0] == list@[i as int]);
            assert(list@.skip(i as int).drop_first() =~= list@.skip(i as int + 1));
        }
        if list[i].0 == at {
            return Some(i);
        }
        i = i + 1;
    }
    None
}

/// The prices with one noted: in the place of the one of its time, or at the
/// end.
pub open spec fn noted(list: Seq<(i64, Double)>, at: i64, price: Double) -> Seq<(i64, Double)> {
    match place_of(list, at) {
        Some(i) => list.update(i, (at, price)),
        None => list.push((at, price)),
    }
}

/// The closing prices of candles, by their times: of several with one time the
/// last counts.
pub open spec fn closes(items: Seq<Json>, form: TimeForm) -> Seq<(i64, Double)>
    decreases items.len(),
{
    if items.len() == 0 {
        Seq::empty()
    } else {
        let before = closes(items.drop_last(), form);
        match (time_of(items.last().item(0), form), items.last().item(4).amount()) {
            (Some(at), Some(price)) => noted(before, at, price),
            _ => before,
        }
    }
}

fn read_closes(list: &Json, form: TimeForm) -> (r: Vec<(i64, Double)>)
    ensures
        r@ == closes(list.elements(), form),
{
    let mut r: Vec<(i64, Double)> = Vec::new();
    let items = match list.as_array() {
        Some(items) => items,
        None => return r,
    };
    let mut i: usize = 0;
    proof {
        assert(items@.take(0) =~= Seq::<Json>::empty());
    }
    while i < items.len()
        invariant
            i <= items@.len(),
            r@ == closes(items@.take(i as int), form),
        decreases items@.len() - i,
    {
        proof {
            assert(items@.take(i as int + 1).drop_last() =~= items@.take(i as int));
        }
        let candle = &items[i];
        if let Some(at) = read_time(candle.nth(0), form) {
            if let Some(price) = number(candle.nth(4)) {
                match find_time(&r, at) {
                    Some(k) => {
                        r.set(k, (at, price));
                    },
                    None => {
                        r.push((at, price));
                    },
                }
            }
        }
        i = i + 1;
    }
    proof {
        assert(items@.take(items@.len() as int) =~= items@);
    }
    r
}

/// The funding rates on a list, in its order.
pub open spec fn listed_rates(items: Seq<Json>, time_field: Seq<char>, form: TimeForm) -> Seq<(i64, Double)>
    decreases items.len(),
{
    if items.len() == 0 {
        Seq::empty()
    } else {
        let before = listed_rates(items.drop_last(), time_field, form);
        match (
            time_of(items.last().member(time_field), form),
            items.last().member("fundingRate"@).amount(),
        ) {
            (Some(at), Some(rate)) => before.push((at, rate)),
            _ => before,
        }
    }
}

/// The times of entries.
pub open spec fn times_of(list: Seq<(i64, Double)>) -> Seq<i128> {
    Seq::new(list.len(), |i: int| list[i].0 as i128)
}

/// A list in a given order.
pub open spec fn arranged<T>(list: Seq<T>, order: Seq<usize>) -> Seq<T> {
    Seq::new(order.len(), |i: int| list[order[i] as int])
}

/// Whether a list is another one in the order of its times.
pub open spec fn is_in_time(new: Seq<(i64, Double)>, old: Seq<(i64, Double)>) -> bool {
    exists|order: Seq<usize>| #[trigger] is_stable_order(order, times_of(old)) && new == arranged(old, order)
}

fn put_in_time(list: &Vec<(i64, Double)>) -> (r: Vec<(i64, Double)>)
    ensures
        is_in_time(r@, list@),
{
    let mut keys: Vec<i128> = Vec::new();
    let mut i: usize = 0;
    while i < list.len()
        invariant
            i <= list@.len(),
            keys@.len() == i,
            forall|k: int| 0 <= k < i ==> #[trigger] keys@[k] == times_of(list@)[k],
        decreases list@.len() - i,
    {
        keys.push(list[i].0 as i128);
        i = i + 1;
    }
    proof {
        assert(keys@ =~= times_of(list@));
    }
    let order = stable_order(&keys);
    let mut r: Vec<(i64, Double)> = Vec::new();
    let mut k: usize = 0;
    while k < order.len()
        invariant
            k <= order@.len(),
            is_stable_order(order@, times_of(list@)),
            r@.len() == k,
            forall|j: int| 0 <= j < k ==> #[trigger] r@[j] == list@[order@[j] as int],
        decreases order@.len() - k,
    {
        let entry: (i64, Double) = list[order[k]];
        r.push(entry);
        k = k + 1;
    }
    proof {
        assert(r@ =~= arranged(list@, order@));
        assert(is_stable_order(order@, times_of(list@)));
    }
    r
}

/// The funding rates on a list, in the order of their times.
pub fn funding_rates(list: &Json, time_field: &str, form: TimeForm) -> (r: Vec<(i64, Double)>)
    ensures
        is_in_time(r@, listed_rates(list.elements(), time_field@, form)),
{
    let mut r: Vec<(i64, Double)> = Vec::new();
    if let Some(items) = list.as_array() {
        let mut i: usize = 0;
        proof {
            assert(items@.take(0) =~= Seq::<Json>::empty());
        }
        while i < items.len()
            invariant
                i <= items@.len(),
                r@ == listed_rates(items@.take(i as int), time_field@, form),
            decreases items@.len() - i,
        {
            proof {
                assert(items@.take(i as int + 1).drop_last() =~= items@.take(i as int));
            }
            let item = &items[i];
            if let Some(at) = read_time(item.get(time_field), form) {
                if let Some(rate) = number(item.get("fundingRate")) {
                    r.push((at, rate));
                }
            }
            i = i + 1;
        }
        proof {
            assert(items@.take(items@.len() as int) =~= items@);
        }
    }
    put_in_time(&r)
}

/// The last rate that was known at a time.
pub open spec fn rate_at(rates: Seq<(i64, Double)>, at: i64) -> Option<Double>
    decreases rates.len(),
{
    if rates.len() == 0 {
        None
    } else if rates.last().0 <= at {
        Some(rates.last().1)
    } else {
        rate_at(rates.drop_last(), at)
    }
}

/// The last rate that was known at a time.
pub fn latest_rate_at(rates: &Vec<(i64, Double)>, timestamp: i64) -> (r: Option<Double>)
    ensures
        r == rate_at(rates@, timestamp),
{
    let mut n: usize = rates.len();
    proof {
        assert(rates@.take(n as int) =~= rates@);
    }
    while n > 0
        invariant
            n <= rates@.len(),
            rate_at(rates@, timestamp) == rate_at(rates@.take(n as int), timestamp),
        decreases n,
    {
        proof {
            assert(rates@.take(n as int).last() == rates@[n - 1]);
            assert(rates@.take(n as int).drop_last() =~= rates@.take(n - 1));
        }
        if rates[n - 1].0 <= timestamp {
            return Some(rates[n - 1].1);
        }
        n = n - 1;
    }
    None
}

/// One hour of two markets.
#[derive(Clone, Copy, Debug, PartialEq, Eq, Structural)]
pub struct HourPair {
    pub timestamp: i64,
    pub first: Double,
    pub second: Double,
}

/// What one entry makes of two markets: a pair where both have the hour and the
/// first price is positive, and the second one too where that is asked for.
pub open spec fn pair_of(entry: (i64, Double), second: Seq<(i64, Double)>, both: bool) -> Option<HourPair> {
    let zero = Double { bits: ZERO };
    match place_of(second, entry.0) {
        Some(i) => if zero.lt_spec(entry.1) && (!both || zero.lt_spec(second[i].1)) {
            Some(HourPair { timestamp: entry.0, first: entry.1, second: second[i].1 })
        } else {
            None
        },
        None => None,
    }
}

/// The hours that two markets have in common.
pub open spec fn paired_hours(first: Seq<(i64, Double)>, second: Seq<(i64, Double)>, both: bool) -> Seq<HourPair>
    decreases first.len(),
{
    if first.len() == 0 {
        Seq::empty()
    } else {
        let before = paired_hours(first.drop_last(), second, both);
        match pair_of(first.last(), second, both) {
            Some(pair) => before.push(pair),
            None => before,
        }
    }
}

/// The times of pairs.
pub open spec fn pair_times(pairs: Seq<HourPair>) -> Seq<i128> {
    Seq::new(pairs.len(), |i: int| pairs[i].timestamp as i128)
}

/// The pairs up to a time, which counts as well where it is asked for.
pub open spec fn pairs_until(pairs: Seq<HourPair>, limit: int, inclusive: bool) -> Seq<HourPair>
    decreases pairs.len(),
{
    if pairs.len() == 0 {
        Seq::empty()
    } else {
        let before = pairs_until(pairs.drop_last(), limit, inclusive);
        let at = pairs.last().timestamp;
        if at < limit || (inclusive && at == limit) {
            before.push(pairs.last())
        } else {
            before
        }
    }
}

/// The most hours that are kept.
pub const HISTORY_HOURS: usize = 24;

/// The last day of a list.
pub open spec fn last_day(pairs: Seq<HourPair>) -> Seq<HourPair> {
    if pairs.len() > HISTORY_HOURS {
        pairs.skip(pairs.len() - HISTORY_HOURS)
    } else {
        pairs
    }
}

/// Whether pairs are the last day that two markets have in common, in the order
/// of their times.
pub open spec fn is_chart(
    pairs: Seq<HourPair>,
    first: Seq<(i64, Double)>,
    second: Seq<(i64, Double)>,
    both: bool,
    limit: int,
    inclusive: bool,
) -> bool {
    let all = paired_hours(first, second, both);
    exists|order: Seq<usize>| #[trigger]
        is_stable_order(order, pair_times(all)) && pairs == last_day(
            pairs_until(arranged(all, order), limit, inclusive),
        )
}

/// The last day that two markets have in common.
pub fn chart(
    first: &Vec<(i64, Double)>,
    second: &Vec<(i64, Double)>,
    both: bool,
    limit: i128,
    inclusive: bool,
) -> (pairs: Vec<HourPair>)
    ensures
        is_chart(pairs@, first@, second@, both, limit as int, inclusive),
{
    let zero = Double { bits: ZERO };
    let mut all: Vec<HourPair> = Vec::new();
    let mut keys: Vec<i128> = Vec::new();
    let mut i: usize = 0;
    proof {
        assert(first@.take(0) =~= Seq::<(i64, Double)>::empty());
    }
    while i < first.len()
        invariant
            i <= first@.len(),
            zero == (Double { bits: ZERO }),
            all@ == paired_hours(first@.take(i as int), second@, both),
            keys@.len() == all@.len(),
            forall|k: int| 0 <= k < keys@.len() ==> #[trigger] keys@[k] == all@[k].timestamp as i128,
        decreases first@.len() - i,
    {
        proof {
            assert(first@.take(i as int + 1).drop_last() =~= first@.take(i as int));
        }
        let at: i64 = first[i].0;
        let price = first[i].1;
        if let Some(k) = find_time(second, at) {
            let other = second[k].1;
            if price.gt(zero) && (!both || other.gt(zero)) {
                all.push(HourPair { timestamp: at, first: price, second: other });
                keys.push(at as i128);
            }
        }
        i = i + 1;
    }
    proof {
        assert(first@.take(first@.len() as int) =~= first@);
        assert(keys@ =~= pair_times(all@));
    }
    let order = stable_order(&keys);
    let ghost sorted = arranged(all@, order@);
    let mut kept: Vec<HourPair> = Vec::new();
    let mut n: usize = 0;
    proof {
        assert(sorted.take(0) =~= Seq::<HourPair>::empty());
    }
    while n < order.len()
        invariant
            n <= order@.len(),
            is_stable_order(order@, pair_times(all@)),
            sorted == arranged(all@, order@),
            kept@ == pairs_until(sorted.take(n as int), limit as int, inclusive),
        decreases order@.len() - n,
    {
        proof {
            assert(sorted.take(n as int + 1).drop_last() =~= sorted.take(n as int));
            assert(sorted.take(n as int + 1).last() == all@[order@[n as int] as int]);
        }
        let pair = all[order[n]];
        let at: i128 = pair.timestamp as i128;
        if at < limit || (inclusive && at == limit) {
            kept.push(pair);
        }
        n = n + 1;
    }
    proof {
        assert(sorted.take(sorted.len() as int) =~= sorted);
        assert(is_stable_order(order@, pair_times(paired_hours(first@, second@, both))));
    }
    if kept.len() <= HISTORY_HOURS {
        return kept;
    }
    let start: usize = kept.len() - HISTORY_HOURS;
    let mut day: Vec<HourPair> = Vec::new();
    let mut k: usize = start;
    proof {
        assert(kept@.subrange(start as int, start as int) =~= Seq::<HourPair>::empty());
    }
    while k < kept.len()
        invariant
            start <= k <= kept@.len(),
            day@ == kept@.subrange(start as int, k as int),
        decreases kept@.len() - k,
    {
        day.push(kept[k]);
        proof {
            assert(kept@.subrange(start as int, k as int + 1) =~= kept@.subrange(
                start as int,
                k as int,
            ).push(kept@[k as int]));
        }
        k = k + 1;
    }
    proof {
        assert(kept@.subrange(start as int, kept@.len() as int) =~= kept@.skip(start as int));
    }
    day
}

/// Whether a text is made of letters and digits of the Latin alphabet.
pub open spec fn alphanumeric(s: Seq<char>) -> bool {
    forall|i: int| 0 <= i < s.len() ==> is_alphanumeric(#[trigger] s[i])
}

pub open spec fn is_alphanumeric(c: char) -> bool {
    ('0' <= c <= '9') || ('A' <= c <= 'Z') || ('a' <= c <= 'z')
}

/// The symbol that a history is asked for, in its usual form.
pub fn check_symbol(symbol: &str) -> (r: Result<String, Failure>)
    ensures
        ({
            let name = upper(trimmed(symbol@));
            if finishes_with(name, "USDT"@) && alphanumeric(name) {
                r matches Ok(s) && s@ == name
            } else {
                r matches Err(f) && f.reason is SymbolShape && f.cause is None
            }
        }),
{
    let name = to_ascii_uppercase(trim(symbol).as_str());
    if !ends_with(name.as_str(), "USDT") {
        return Err(Failure::new(Reason::SymbolShape));
    }
    let v = chars_of(name.as_str());
    let mut i: usize = 0;
    while i < v.len()
        invariant
            i <= v@.len(),
            v@ == name@,
            name@ == upper(trimmed(symbol@)),
            forall|k: int| 0 <= k < i ==> is_alphanumeric(#[trigger] v@[k]),
        decreases v@.len() - i,
    {
        let c: char = v[i];
        if !(('0' <= c && c <= '9') || ('A' <= c && c <= 'Z') || ('a' <= c && c <= 'z')) {
            proof {
                assert(!is_alphanumeric(name@[i as int]));
            }
            return Err(Failure::new(Reason::SymbolShape));
        }
        i = i + 1;
    }
    Ok(name)
}

/// Whether a point is that of an hour.
pub open spec fn is_spread_point(
    point: SpreadHistoryPoint,
    pair: HourPair,
    binance_rates: Seq<(i64, Double)>,
    bybit_rates: Seq<(i64, Double)>,
) -> bool {
    &&& point.timestamp == pair.timestamp
    &&& point.binance_close == pair.first
    &&& point.bybit_close == pair.second
    &&& point.spread_percent == pair.second.sub_spec(pair.first).div_spec(pair.first).mul_spec(
        Double { bits: HUNDRED },
    )
    &&& point.binance_funding_rate == rate_at(binance_rates, pair.timestamp)
    &&& point.bybit_funding_rate == rate_at(bybit_rates, pair.timestamp)
}

impl MarketService {
    /// The history of the price gap of a symbol: the hours that both exchanges
    /// have, the running one included, and the last funding rates known at each.
    pub fn spread_history(
        symbol: String,
        binance: &Json,
        bybit: &Json,
        binance_funding: &Json,
        bybit_funding: &Json,
        now: i64,
    ) -> (response: SpreadHistoryResponse)
        ensures
            response.symbol == symbol,
            response.formula@ == "(Bybit - Binance) / Binance × 100%"@,
            response.funding_note@ == "每小时展示截至该时刻最近一次已知结算费率；并非每小时发生结算"@,
            exists|pairs: Seq<HourPair>, binance_rates: Seq<(i64, Double)>, bybit_rates: Seq<(i64, Double)>|
                #[trigger] is_chart(
                    pairs,
                    closes(binance.elements(), TimeForm::Number),
                    closes(bybit.member("result"@).member("list"@).elements(), TimeForm::Text),
                    false,
                    period_start(now as int, HOUR_MILLIS as int),
                    true,
                ) && #[trigger] is_in_time(
                    binance_rates,
                    listed_rates(binance_funding.elements(), "fundingTime"@, TimeForm::Number),
                ) && #[trigger] is_in_time(
                    bybit_rates,
                    listed_rates(
                        bybit_funding.member("result"@).member("list"@).elements(),
                        "fundingRateTimestamp"@,
                        TimeForm::Text,
                    ),
                ) && response.points@.len() == pairs.len() && forall|i: int|
                    0 <= i < pairs.len() ==> is_spread_point(
                        #[trigger] response.points@[i],
                        pairs[i],
                        binance_rates,
                        bybit_rates,
                    ),
    {
        let first = read_closes(binance, TimeForm::Number);
        let second = read_closes(bybit.get("result").get("list"), TimeForm::Text);
        let binance_rates = funding_rates(binance_funding, "fundingTime", TimeForm::Number);
        let bybit_rates = funding_rates(
            bybit_funding.get("result").get("list"),
            "fundingRateTimestamp",
            TimeForm::Text,
        );
        let pairs = chart(&first, &second, false, hour_start(now), true);
        let mut points: Vec<SpreadHistoryPoint> = Vec::new();
        let mut i: usize = 0;
        while i < pairs.len()
            invariant
                i <= pairs@.len(),
                points@.len() == i,
                forall|k: int|
                    0 <= k < i ==> is_spread_point(
                        #[trigger] points@[k],
                        pairs@[k],
                        binance_rates@,
                        bybit_rates@,
                    ),
            decreases pairs@.len() - i,
        {
            let pair = pairs[i];
            points.push(
                SpreadHistoryPoint {
                    timestamp: pair.timestamp,
                    binance_close: pair.first,
                    bybit_close: pair.second,
                    spread_percent: pair.second.sub(pair.first).div(pair.first).mul(
                        Double { bits: HUNDRED },
                    ),
                    binance_funding_rate: latest_rate_at(&binance_rates, pair.timestamp),
                    bybit_funding_rate: latest_rate_at(&bybit_rates, pair.timestamp),
                },
            );
            i = i + 1;
        }
        SpreadHistoryResponse {
            symbol,
            formula: "(Bybit - Binance) / Binance × 100%".to_owned(),
            funding_note: "每小时展示截至该时刻最近一次已知结算费率；并非每小时发生结算".to_owned(),
            points,
        }
    }
}

/// The closing prices that an answer of an exchange gives.
pub open spec fn exchange_closes(exchange: Seq<char>, answer: Json) -> Seq<(i64, Double)> {
    closes(
        if exchange == "Binance"@ {
            answer.elements()
        } else {
            answer.member("result"@).member("list"@).elements()
        },
        TimeForm::Either,
    )
}

/// The closing prices that an answer of an exchange gives.
pub fn hourly_closes(leg: &Leg, answer: &Json) -> (r: Vec<(i64, Double)>)
    ensures
        r@ == exchange_closes(leg.exchange@, *answer),
{
    if same(leg.exchange.as_str(), "Binance") {
        read_closes(answer, TimeForm::Either)
    } else {
        read_closes(answer.get("result").get("list"), TimeForm::Either)
    }
}

/// The address before and after the symbol at which an exchange gives candles.
pub open spec fn candle_address(exchange: Seq<char>, market: Seq<char>) -> Option<(Seq<char>, Seq<char>)> {
    if exchange == "Binance"@ && market == "perpetual"@ {
        Some(("https://fapi.binance.com/fapi/v1/klines?symbol="@, "&interval=1h&limit=25"@))
    } else if exchange == "Binance"@ && market == "spot"@ {
        Some(("https://api.binance.com/api/v3/klines?symbol="@, "&interval=1h&limit=25"@))
    } else if exchange == "Bybit"@ && market == "perpetual"@ {
        Some(
            (
                "https://api.bybit.com/v5/market/kline?category=linear&symbol="@,
                "&interval=60&limit=25"@,
            ),
        )
    } else if exchange == "Bybit"@ && market == "spot"@ {
        Some(
            (
                "https://api.bybit.com/v5/market/kline?category=spot&symbol="@,
                "&interval=60&limit=25"@,
            ),
        )
    } else {
        None
    }
}

/// Where the candles of a leg are asked for.
pub fn candle_url(leg: &Leg) -> (r: Result<String, Failure>)
    ensures
        match candle_address(leg.exchange@, leg.market@) {
            Some(a) => r matches Ok(url) && url@ == a.0 + leg.symbol@ + a.1,
            None => r matches Err(f) && f.reason is HistoryRoute && f.cause is None,
        },
{
    let binance: bool = same(leg.exchange.as_str(), "Binance");
    let bybit: bool = same(leg.exchange.as_str(), "Bybit");
    let perpetual: bool = same(leg.market.as_str(), "perpetual");
    let spot: bool = same(leg.market.as_str(), "spot");
    let (before, after) = if binance && perpetual {
        ("https://fapi.binance.com/fapi/v1/klines?symbol=", "&interval=1h&limit=25")
    } else if binance && spot {
        ("https://api.binance.com/api/v3/klines?symbol=", "&interval=1h&limit=25")
    } else if bybit && perpetual {
        (
            "https://api.bybit.com/v5/market/kline?category=linear&symbol=",
            "&interval=60&limit=25",
        )
    } else if bybit && spot {
        (
            "https://api.bybit.com/v5/market/kline?category=spot&symbol=",
            "&interval=60&limit=25",
        )
    } else {
        return Err(Failure::new(Reason::HistoryRoute));
    };
    let mut url = join(before, leg.symbol.as_str());
    url.append(after);
    Ok(url)
}

/// Two days in milliseconds.
pub const FUNDING_WINDOW_MILLIS: i64 = 172800000;

/// Where Binance gives the funding rates of a contract.
pub open spec fn binance_rates_at(symbol: Seq<char>, now: i64) -> Seq<char> {
    "https://fapi.binance.com/fapi/v1/fundingRate?symbol="@ + symbol + "&startTime="@ + decimal(
        now - FUNDING_WINDOW_MILLIS,
    ) + "&limit=1000"@
}

fn binance_rates_url(symbol: &str, now: i64) -> (url: String)
    requires
        now >= i64::MIN + FUNDING_WINDOW_MILLIS,
    ensures
        url@ == binance_rates_at(symbol@, now),
{
    let mut url = join("https://fapi.binance.com/fapi/v1/fundingRate?symbol=", symbol);
    url.append("&startTime=");
    url.append(int_text(now - FUNDING_WINDOW_MILLIS).as_str());
    url.append("&limit=1000");
    url
}

/// Where Bybit gives the funding rates of a contract.
pub open spec fn bybit_rates_at(symbol: Seq<char>, now: i64) -> Seq<char> {
    "https://api.bybit.com/v5/market/funding/history?category=linear&symbol="@ + symbol + "&startTime="@
        + decimal(now - FUNDING_WINDOW_MILLIS) + "&endTime="@ + decimal(now as int) + "&limit=200"@
}

fn bybit_rates_url(symbol: &str, now: i64) -> (url: String)
    requires
        now >= i64::MIN + FUNDING_WINDOW_MILLIS,
    ensures
        url@ == bybit_rates_at(symbol@, now),
{
    let mut url = join("https://api.bybit.com/v5/market/funding/history?category=linear&symbol=", symbol);
    url.append("&startTime=");
    url.append(int_text(now - FUNDING_WINDOW_MILLIS).as_str());
    url.append("&endTime=");
    url.append(int_text(now).as_str());
    url.append("&limit=200");
    url
}

/// Where the funding rates of a leg are asked for; a leg that pays no funding has
/// none.
pub fn funding_url(leg: &Leg, now: i64) -> (r: Result<Option<String>, Failure>)
    requires
        now >= i64::MIN + FUNDING_WINDOW_MILLIS,
    ensures
        if leg.market@ != "perpetual"@ {
            r == Ok::<Option<String>, Failure>(None)
        } else if leg.exchange@ == "Binance"@ {
            r matches Ok(Some(url)) && url@ == binance_rates_at(leg.symbol@, now)
        } else if leg.exchange@ == "Bybit"@ {
            r matches Ok(Some(url)) && url@ == bybit_rates_at(leg.symbol@, now)
        } else {
            r matches Err(f) && f.reason is FundingExchange && f.cause is None
        },
{
    if !same(leg.market.as_str(), "perpetual") {
        return Ok(None);
    }
    if same(leg.exchange.as_str(), "Binance") {
        return Ok(Some(binance_rates_url(leg.symbol.as_str(), now)));
    }
    if same(leg.exchange.as_str(), "Bybit") {
        return Ok(Some(bybit_rates_url(leg.symbol.as_str(), now)));
    }
    Err(Failure::new(Reason::FundingExchange))
}

/// Where the history of a contract is asked for at both exchanges.
pub struct SymbolUrls {
    pub binance_candles: String,
    pub bybit_candles: String,
    pub binance_rates: String,
    pub bybit_rates: String,
}

pub fn symbol_urls(symbol: &str, now: i64) -> (urls: SymbolUrls)
    requires
        now >= i64::MIN + FUNDING_WINDOW_MILLIS,
    ensures
        ({
            let binance = candle_address("Binance"@, "perpetual"@)->0;
            let bybit = candle_address("Bybit"@, "perpetual"@)->0;
            &&& urls.binance_candles@ == binance.0 + symbol@ + binance.1
            &&& urls.bybit_candles@ == bybit.0 + symbol@ + bybit.1
            &&& urls.binance_rates@ == binance_rates_at(symbol@, now)
            &&& urls.bybit_rates@ == bybit_rates_at(symbol@, now)
        }),
{
    let mut binance_candles = join("https://fapi.binance.com/fapi/v1/klines?symbol=", symbol);
    binance_candles.append("&interval=1h&limit=25");
    let mut bybit_candles = join("https://api.bybit.com/v5/market/kline?category=linear&symbol=", symbol);
    bybit_candles.append("&interval=60&limit=25");
    proof {
        reveal_strlit("Binance");
        reveal_strlit("Bybit");
        assert("Binance"@.len() != "Bybit"@.len());
    }
    SymbolUrls {
        binance_candles,
        bybit_candles,
        binance_rates: binance_rates_url(symbol, now),
        bybit_rates: bybit_rates_url(symbol, now),
    }
}

/// The funding rates that an answer of an exchange gives, in its order.
pub open spec fn exchange_rates(exchange: Seq<char>, answer: Json) -> Seq<(i64, Double)> {
    if exchange == "Binance"@ {
        listed_rates(answer.elements(), "fundingTime"@, TimeForm::Number)
    } else {
        listed_rates(
            answer.member("result"@).member("list"@).elements(),
            "fundingRateTimestamp"@,
            TimeForm::Text,
        )
    }
}

/// The funding rates that an answer of an exchange gives, in the order of their
/// times.
pub fn funding_history(leg: &Leg, answer: &Json) -> (r: Vec<(i64, Double)>)
    ensures
        is_in_time(r@, exchange_rates(leg.exchange@, *answer)),
{
    if same(leg.exchange.as_str(), "Binance") {
        funding_rates(answer, "fundingTime", TimeForm::Number)
    } else {
        funding_rates(answer.get("result").get("list"), "fundingRateTimestamp", TimeForm::Text)
    }
}

/// A day in milliseconds.
pub const DAY_MILLIS: i128 = 86400000;

/// The entries of the last day.
pub open spec fn of_last_day(rates: Seq<(i64, Double)>, now: i64) -> Seq<(i64, Double)>
    decreases rates.len(),
{
    if rates.len() == 0 {
        Seq::empty()
    } else {
        let before = of_last_day(rates.drop_last(), now);
        if now - DAY_MILLIS <= rates.last().0 <= now {
            before.push(rates.last())
        } else {
            before
        }
    }
}

/// The entries of the last day.
pub fn recent_rates(rates: &Vec<(i64, Double)>, now: i64) -> (r: Vec<(i64, Double)>)
    ensures
        r@ == of_last_day(rates@, now),
{
    let mut r: Vec<(i64, Double)> = Vec::new();
    let mut i: usize = 0;
    proof {
        assert(rates@.take(0) =~= Seq::<(i64, Double)>::empty());
    }
    while i < rates.len()
        invariant
            i <= rates@.len(),
            r@ == of_last_day(rates@.take(i as int), now),
        decreases rates@.len() - i,
    {
        proof {
            assert(rates@.take(i as int + 1).drop_last() =~= rates@.take(i as int));
        }
        let entry: (i64, Double) = rates[i];
        if now as i128 - DAY_MILLIS <= entry.0 as i128 && entry.0 <= now {
            r.push(entry);
        }
        i = i + 1;
    }
    proof {
        assert(rates@.take(rates@.len() as int) =~= rates@);
    }
    r
}

/// Whether a point is that of an hour of a route.
pub open spec fn is_route_point(
    point: OpportunityHistoryPoint,
    pair: HourPair,
    long_rates: Seq<(i64, Double)>,
    short_rates: Seq<(i64, Double)>,
) -> bool {
    &&& point.timestamp == pair.timestamp
    &&& point.long_close == pair.first
    &&& point.short_close == pair.second
    &&& point.directional_spread_percent == pair.second.sub_spec(pair.first).div_spec(pair.first).mul_spec(
        Double { bits: HUNDRED },
    )
    &&& point.long_funding_rate == rate_at(long_rates, pair.timestamp)
    &&& point.short_funding_rate == rate_at(short_rates, pair.timestamp)
}

/// The history of a route: the hours that both legs have, the running one
/// included, and the last funding rates known at each.
pub fn history_for_legs(
    id: String,
    long_closes: &Vec<(i64, Double)>,
    short_closes: &Vec<(i64, Double)>,
    long_rates: &Vec<(i64, Double)>,
    short_rates: &Vec<(i64, Double)>,
    now: i64,
) -> (response: OpportunityHistoryResponse)
    ensures
        response.opportunity_id == id,
        response.funding_note@
            == "每小时展示截至该时刻永续腿最近一次已知结算费率；现货腿没有资金费率"@,
        exists|pairs: Seq<HourPair>| #[trigger]
            is_chart(
                pairs,
                long_closes@,
                short_closes@,
                true,
                period_start(now as int, HOUR_MILLIS as int),
                true,
            ) && response.points@.len() == pairs.len() && forall|i: int|
                0 <= i < pairs.len() ==> is_route_point(
                    #[trigger] response.points@[i],
                    pairs[i],
                    long_rates@,
                    short_rates@,
                ),
{
    let pairs = chart(long_closes, short_closes, true, hour_start(now), true);
    let mut points: Vec<OpportunityHistoryPoint> = Vec::new();
    let mut i: usize = 0;
    while i < pairs.len()
        invariant
            i <= pairs@.len(),
            points@.len() == i,
            forall|k: int|
                0 <= k < i ==> is_route_point(
                    #[trigger] points@[k],
                    pairs@[k],
                    long_rates@,
                    short_rates@,
                ),
        decreases pairs@.len() - i,
    {
        let pair = pairs[i];
        points.push(
            OpportunityHistoryPoint {
                timestamp: pair.timestamp,
                long_close: pair.first,
                short_close: pair.second,
                directional_spread_percent: pair.second.sub(pair.first).div(pair.first).mul(
                    Double { bits: HUNDRED },
                ),
                long_funding_rate: latest_rate_at(long_rates, pair.timestamp),
                short_funding_rate: latest_rate_at(short_rates, pair.timestamp),
            },
        );
        i = i + 1;
    }
    OpportunityHistoryResponse {
        opportunity_id: id,
        funding_note: "每小时展示截至该时刻永续腿最近一次已知结算费率；现货腿没有资金费率".to_owned(),
        points,
    }
}

/// The gaps of pairs.
pub open spec fn gaps(pairs: Seq<HourPair>) -> Seq<(i64, Double)> {
    Seq::new(
        pairs.len(),
        |i: int| (pairs[i].timestamp, pairs[i].second.sub_spec(pairs[i].first).div_spec(pairs[i].first)),
    )
}

/// The gaps of a route over its last day of full hours, which its average is
/// taken from.
pub fn hourly_gaps(long_closes: &Vec<(i64, Double)>, short_closes: &Vec<(i64, Double)>, now: i64) -> (r: Result<
    Vec<(i64, Double)>,
    Failure,
>)
    ensures
        exists|pairs: Seq<HourPair>| #[trigger]
            is_chart(
                pairs,
                long_closes@,
                short_closes@,
                true,
                period_start(now as int, HOUR_MILLIS as int),
                false,
            ) && if pairs.len() == 0 {
                r matches Err(f) && f.reason is NoCandles && f.cause is None
            } else {
                r matches Ok(v) && v@ == gaps(pairs)
            },
{
    let pairs = chart(long_closes, short_closes, true, hour_start(now), false);
    if pairs.len() == 0 {
        return Err(Failure::new(Reason::NoCandles));
    }
    let mut v: Vec<(i64, Double)> = Vec::new();
    let mut i: usize = 0;
    while i < pairs.len()
        invariant
            i <= pairs@.len(),
            v@.len() == i,
            forall|k: int| 0 <= k < i ==> #[trigger] v@[k] == gaps(pairs@)[k],
        decreases pairs@.len() - i,
    {
        let pair = pairs[i];
        v.push((pair.timestamp, pair.second.sub(pair.first).div(pair.first)));
        i = i + 1;
    }
    proof {
        assert(v@ =~= gaps(pairs@));
    }
    Ok(v)
}

proof fn lemma_until_keeps_order(pairs: Seq<HourPair>, limit: int, inclusive: bool)
    requires
        forall|i: int, j: int| 0 <= i < j < pairs.len() ==> (#[trigger] pairs[i]).timestamp <= (
        #[trigger] pairs[j]).timestamp,
    ensures
        ({
            let kept = pairs_until(pairs, limit, inclusive);
            &&& forall|i: int, j: int|
                0 <= i < j < kept.len() ==> (#[trigger] kept[i]).timestamp <= (#[trigger] kept[j]).timestamp
            &&& forall|i: int|
                0 <= i < kept.len() ==> (#[trigger] kept[i]).timestamp <= limit && (inclusive || kept[i].timestamp
                    < limit)
            &&& forall|i: int|
                0 <= i < kept.len() ==> pairs.len() > 0 && (#[trigger] kept[i]).timestamp <= pairs.last().timestamp
        }),
    decreases pairs.len(),
{
    if pairs.len() > 0 {
        let shorter = pairs.drop_last();
        lemma_until_keeps_order(shorter, limit, inclusive);
        let before = pairs_until(shorter, limit, inclusive);
        assert forall|i: int| 0 <= i < before.len() implies (#[trigger] before[i]).timestamp
            <= pairs.last().timestamp by {
            assert(before[i].timestamp <= shorter.last().timestamp);
            assert(shorter.last() == pairs[pairs.len() - 2]);
            assert(pairs.last() == pairs[pairs.len() - 1]);
        }
    }
}

/// A history runs from the earliest hour to the latest, over a day at most, and
/// holds no hour after the one that it ends with.
pub proof fn lemma_chart_is_a_day(
    pairs: Seq<HourPair>,
    first: Seq<(i64, Double)>,
    second: Seq<(i64, Double)>,
    both: bool,
    limit: int,
    inclusive: bool,
)
    requires
        is_chart(pairs, first, second, both, limit, inclusive),
    ensures
        pairs.len() <= HISTORY_HOURS,
        forall|i: int, j: int|
            0 <= i < j < pairs.len() ==> (#[trigger] pairs[i]).timestamp <= (#[trigger] pairs[j]).timestamp,
        forall|i: int|
            0 <= i < pairs.len() ==> (#[trigger] pairs[i]).timestamp <= limit && (inclusive || pairs[i].timestamp
                < limit),
{
    let all = paired_hours(first, second, both);
    let order = choose|order: Seq<usize>| #[trigger]
        is_stable_order(order, pair_times(all)) && pairs == last_day(
            pairs_until(arranged(all, order), limit, inclusive),
        );
    let sorted = arranged(all, order);
    assert forall|i: int, j: int| 0 <= i < j < sorted.len() implies (#[trigger] sorted[i]).timestamp <= (
    #[trigger] sorted[j]).timestamp by {
        assert(sorted[i] == all[order[i] as int]);
        assert(sorted[j] == all[order[j] as int]);
        assert(crate::sorting::comes_first(pair_times(all), order[i] as int, order[j] as int));
    }
    lemma_until_keeps_order(sorted, limit, inclusive);
}

} // verus!
