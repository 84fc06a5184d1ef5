//! Reading the lists of the exchanges.

use crate::failure::{Failure, Reason};
use crate::json::{amount_or, number, number_or, Json};
use crate::market::routes::{reference_price, strategy_reference_price};
use crate::models::{CmcResponse, Leg, PositionQuote, Token};
use crate::num::constants::{EIGHT, EIGHT_HOURS_IN_MINUTES, SIXTY, THOUSANDTH, TWO, ZERO};
use crate::num::Double;
use crate::text::{join, same, texts};
use crate::market::service::MarketService;
use vstd::prelude::*;

verus! {

/// Whether a line is about a symbol and gives the numbers that are asked for.
pub open spec fn is_row(item: Json, symbol: Seq<char>, first: Option<Seq<char>>, second: Option<Seq<char>>) -> bool {
    &&& item.member("symbol"@).is_text(symbol)
    &&& first is Some ==> item.member(first->0).amount() is Some
    &&& second is Some ==> item.member(second->0).amount() is Some
}

/// The last line about a symbol that gives the numbers that are asked for.
pub open spec fn row_of(
    items: Seq<Json>,
    symbol: Seq<char>,
    first: Option<Seq<char>>,
    second: Option<Seq<char>>,
) -> Option<Json>
    decreases items.len(),
{
    if items.len() == 0 {
        None
    } else if is_row(items.last(), symbol, first, second) {
        Some(items.last())
    } else {
        row_of(items.drop_last(), symbol, first, second)
    }
}

/// The characters of a text, if there is one.
pub open spec fn chars(text: Option<&str>) -> Option<Seq<char>> {
    match text {
        Some(t) => Some(t@),
        None => None,
    }
}

fn find_row<'a>(list: &'a Json, symbol: &str, first: Option<&str>, second: Option<&str>) -> (r: Option<&'a Json>)
    ensures
        match r {
            Some(item) => row_of(list.elements(), symbol@, chars(first), chars(second)) == Some(*item),
            None => row_of(list.elements(), symbol@, chars(first), chars(second)) is None,
        },
{
    let items = match list.as_array() {
        Some(items) => items,
        None => return None,
    };
    let mut n: usize = items.len();
    proof {
        assert(items@.take(n as int) =~= items@);
    }
    while n > 0
        invariant
            n <= items@.len(),
            items@ == list.elements(),
            row_of(items@, symbol@, chars(first), chars(second)) == row_of(
                items@.take(n as int),
                symbol@,
                chars(first),
                chars(second),
            ),
        decreases n,
    {
        proof {
            assert(items@.take(n as int).last() == items@[n - 1]);
            assert(items@.take(n as int).drop_last() =~= items@.take(n - 1));
        }
        let item = &items[n - 1];
        if item.get("symbol").equals_text(symbol) {
            let has_first: bool = match first {
                Some(field) => number(item.get(field)).is_some(),
                None => true,
            };
            let has_second: bool = match second {
                Some(field) => number(item.get(field)).is_some(),
                None => true,
            };
            if has_first && has_second {
                return Some(item);
            }
        }
        n = n - 1;
    }
    None
}

/// The number that the last line about a symbol gives, or what stands in for it.
pub open spec fn value_or(items: Seq<Json>, symbol: Seq<char>, field: Seq<char>, other: Double) -> Double {
    match row_of(items, symbol, Some(field), None) {
        Some(item) => item.member(field).amount()->0,
        None => other,
    }
}

fn find_value(list: &Json, symbol: &str, field: &str, other: Double) -> (x: Double)
    ensures
        x == value_or(list.elements(), symbol@, field@, other),
{
    match find_row(list, symbol, Some(field), None) {
        Some(item) => {
            proof {
                lemma_row_is_row(list.elements(), symbol@, Some(field@), None);
            }
            number_or(item.get(field), other)
        },
        None => other,
    }
}

proof fn lemma_row_is_row(items: Seq<Json>, symbol: Seq<char>, first: Option<Seq<char>>, second: Option<Seq<char>>)
    ensures
        row_of(items, symbol, first, second) matches Some(item) ==> is_row(item, symbol, first, second),
    decreases items.len(),
{
    if items.len() > 0 {
        lemma_row_is_row(items.drop_last(), symbol, first, second);
    }
}

/// The first filter of a contract that limits its quantities.
pub open spec fn lot_filter(items: Seq<Json>) -> Json
    decreases items.len(),
{
    if items.len() == 0 {
        Json::Null
    } else if items[0].member("filterType"@).is_text("LOT_SIZE"@) {
        items[0]
    } else {
        lot_filter(items.drop_first())
    }
}

/// The steps in which a contract of Binance is traded.
pub open spec fn lot_step(contract: Json) -> Double {
    match lot_filter(contract.member("filters"@).elements()).member("stepSize"@).spelled() {
        Some(x) => x,
        None => Double { bits: THOUSANDTH },
    }
}

fn find_lot_step(contract: &Json) -> (x: Double)
    ensures
        x == lot_step(*contract),
{
    let filters = match contract.get("filters").as_array() {
        Some(filters) => filters,
        None => {
            return Double { bits: THOUSANDTH };
        },
    };
    let mut i: usize = 0;
    proof {
        assert(filters@.skip(0) =~= filters@);
    }
    while i < filters.len()
        invariant
            i <= filters@.len(),
            filters@ == contract.member("filters"@).elements(),
            lot_filter(filters@) == lot_filter(filters@.skip(i as int)),
        decreases filters@.len() - i,
    {
        proof {
            assert(filters@.skip(i as int)[0] == filters@[i as int]);
            assert(filters@.skip(i as int).drop_first() =~= filters@.skip(i as int + 1));
        }
        if filters[i].get("filterType").equals_text("LOT_SIZE") {
            return match filters[i].get("stepSize").as_spelled() {
                Some(x) => x,
                None => Double { bits: THOUSANDTH },
            };
        }
        i = i + 1;
    }
    Double { bits: THOUSANDTH }
}

/// Whether any of the texts of a list is the given one.
pub open spec fn has_text(items: Seq<Json>, text: Seq<char>) -> bool {
    exists|i: int| 0 <= i < items.len() && (#[trigger] items[i]).is_text(text)
}

fn find_text(list: &Json, text: &str) -> (b: bool)
    ensures
        b == has_text(list.elements(), text@),
{
    let items = match list.as_array() {
        Some(items) => items,
        None => return false,
    };
    let mut i: usize = 0;
    while i < items.len()
        invariant
            i <= items@.len(),
            items@ == list.elements(),
            forall|k: int| 0 <= k < i ==> !(#[trigger] items@[k]).is_text(text@),
        decreases items@.len() - i,
    {
        if items[i].equals_text(text) {
            return true;
        }
        i = i + 1;
    }
    false
}

/// Whether Binance trades a contract against USDT.
pub open spec fn is_contract(item: Json) -> bool {
    &&& item.member("quoteAsset"@).is_text("USDT"@)
    &&& (item.member("contractType"@).is_text("PERPETUAL"@) || item.member("contractType"@).is_text(
        "TRADIFI_PERPETUAL"@,
    ))
    &&& item.member("status"@).is_text("TRADING"@)
    &&& item.member("symbol"@).string() is Some
    &&& item.member("baseAsset"@).string() is Some
}

/// The last contract of a symbol that Binance trades.
pub open spec fn contract_of(items: Seq<Json>, symbol: Seq<char>) -> Option<Json>
    decreases items.len(),
{
    if items.len() == 0 {
        None
    } else if is_contract(items.last()) && items.last().member("symbol"@).is_text(symbol) {
        Some(items.last())
    } else {
        contract_of(items.drop_last(), symbol)
    }
}

fn find_contract<'a>(list: &'a Json, symbol: &str) -> (r: Option<&'a Json>)
    ensures
        match r {
            Some(item) => contract_of(list.elements(), symbol@) == Some(*item) && is_contract(*item),
            None => contract_of(list.elements(), symbol@) is None,
        },
{
    let items = match list.as_array() {
        Some(items) => items,
        None => return None,
    };
    let mut n: usize = items.len();
    proof {
        assert(items@.take(n as int) =~= items@);
    }
    while n > 0
        invariant
            n <= items@.len(),
            items@ == list.elements(),
            contract_of(items@, symbol@) == contract_of(items@.take(n as int), symbol@),
        decreases n,
    {
        proof {
            assert(items@.take(n as int).last() == items@[n - 1]);
            assert(items@.take(n as int).drop_last() =~= items@.take(n - 1));
        }
        let item = &items[n - 1];
        if item.get("symbol").equals_text(symbol) && item.get("quoteAsset").equals_text("USDT") && (item.get(
            "contractType",
        ).equals_text("PERPETUAL") || item.get("contractType").equals_text("TRADIFI_PERPETUAL"))
            && item.get("status").equals_text("TRADING") && item.get("baseAsset").as_str().is_some() {
            return Some(item);
        }
        n = n - 1;
    }
    None
}

/// Whether a contract of Binance is about a share or a commodity.
pub open spec fn is_tradefi_contract(contract: Json) -> bool {
    contract.member("contractType"@).is_text("TRADIFI_PERPETUAL"@) || has_text(
        contract.member("underlyingSubType"@).elements(),
        "TradFi"@,
    )
}

/// The tags of a leg.
pub open spec fn leg_tags(tradefi: bool) -> Seq<Seq<char>> {
    if tradefi {
        seq!["tradefi"@]
    } else {
        Seq::empty()
    }
}

fn make_tags(tradefi: bool) -> (tags: Vec<String>)
    ensures
        texts(tags@) == leg_tags(tradefi),
{
    let mut tags: Vec<String> = Vec::new();
    if tradefi {
        tags.push("tradefi".to_owned());
    }
    proof {
        assert(texts(tags@) =~= leg_tags(tradefi));
    }
    tags
}

/// The last interval that Binance gives for a symbol.
pub open spec fn interval_row(items: Seq<Json>, symbol: Seq<char>) -> Double
    decreases items.len(),
{
    if items.len() == 0 {
        Double { bits: EIGHT }
    } else if items.last().member("symbol"@).is_text(symbol) && items.last().member(
        "fundingIntervalHours"@,
    ).numeral() is Some {
        items.last().member("fundingIntervalHours"@).numeral()->0
    } else {
        interval_row(items.drop_last(), symbol)
    }
}

fn find_interval(list: &Json, symbol: &str) -> (x: Double)
    ensures
        x == interval_row(list.elements(), symbol@),
{
    let items = match list.as_array() {
        Some(items) => items,
        None => {
            return Double { bits: EIGHT };
        },
    };
    let mut n: usize = items.len();
    proof {
        assert(items@.take(n as int) =~= items@);
    }
    while n > 0
        invariant
            n <= items@.len(),
            items@ == list.elements(),
            interval_row(items@, symbol@) == interval_row(items@.take(n as int), symbol@),
        decreases n,
    {
        proof {
            assert(items@.take(n as int).last() == items@[n - 1]);
            assert(items@.take(n as int).drop_last() =~= items@.take(n - 1));
        }
        let item = &items[n - 1];
        if item.get("symbol").equals_text(symbol) {
            if let Some(x) = item.get("fundingIntervalHours").as_numeral() {
                return x;
            }
        }
        n = n - 1;
    }
    Double { bits: EIGHT }
}

/// The lists that the perpetual contracts of Binance are read from.
pub struct BinanceLists {
    pub premium: Json,
    pub book: Json,
    pub exchange: Json,
    pub funding: Json,
    pub volumes: Json,
}

/// What Binance says about the symbol of a line: its contract and its book.
pub open spec fn binance_rows(lists: BinanceLists, symbol: Seq<char>) -> (Option<Json>, Option<Json>) {
    (
        contract_of(lists.exchange.member("symbols"@).elements(), symbol),
        row_of(lists.book.elements(), symbol, None, None),
    )
}

/// Whether a line of Binance gives a leg.
pub open spec fn is_binance_market(item: Json, lists: BinanceLists) -> bool {
    &&& item.member("symbol"@).string() is Some
    &&& binance_rows(lists, item.member("symbol"@).string()->0).0 is Some
    &&& binance_rows(lists, item.member("symbol"@).string()->0).1 matches Some(book)
    &&& book.member("bidPrice"@).amount() is Some
    &&& book.member("askPrice"@).amount() is Some
    &&& item.member("markPrice"@).amount() is Some
    &&& item.member("nextFundingTime"@).integer() is Some
}

/// Whether a leg is the one on a line of Binance.
pub open spec fn is_binance_perpetual(leg: Leg, item: Json, lists: BinanceLists) -> bool {
    let symbol = item.member("symbol"@).string()->0;
    let contract = binance_rows(lists, symbol).0->0;
    let book = binance_rows(lists, symbol).1->0;
    &&& leg.exchange@ == "Binance"@
    &&& leg.market@ == "perpetual"@
    &&& contract.member("baseAsset"@).is_text(leg.base@)
    &&& leg.symbol@ == symbol
    &&& Some(leg.bid) == book.member("bidPrice"@).amount()
    &&& Some(leg.ask) == book.member("askPrice"@).amount()
    &&& leg.bid_quantity == amount_or(book.member("bidQty"@), ZERO)
    &&& leg.ask_quantity == amount_or(book.member("askQty"@), ZERO)
    &&& Some(leg.mark) == item.member("markPrice"@).amount()
    &&& leg.rate == amount_or(item.member("lastFundingRate"@), ZERO)
    &&& leg.interval_hours == interval_row(lists.funding.elements(), symbol)
    &&& Some(leg.next_funding_time) == item.member("nextFundingTime"@).integer()
    &&& leg.qty_step == lot_step(contract)
    &&& texts(leg.tags@) == leg_tags(is_tradefi_contract(contract))
    &&& leg.volume_24h_usdt == value_or(
        lists.volumes.elements(),
        symbol,
        "quoteVolume"@,
        Double { bits: ZERO },
    )
}

/// Whether legs are those of Binance's perpetual contracts, in its order.
pub open spec fn are_binance_perpetuals(legs: Seq<Leg>, items: Seq<Json>, lists: BinanceLists) -> bool
    decreases items.len(),
{
    if items.len() == 0 {
        legs.len() == 0
    } else if is_binance_market(items.last(), lists) {
        legs.len() > 0 && is_binance_perpetual(legs.last(), items.last(), lists) && are_binance_perpetuals(
            legs.drop_last(),
            items.drop_last(),
            lists,
        )
    } else {
        are_binance_perpetuals(legs, items.drop_last(), lists)
    }
}

fn decode_binance_market(item: &Json, lists: &BinanceLists) -> (r: Option<Leg>)
    ensures
        match r {
            Some(leg) => is_binance_market(*item, *lists) && is_binance_perpetual(leg, *item, *lists),
            None => !is_binance_market(*item, *lists),
        },
{
    let symbol = match item.get("symbol").as_str() {
        Some(s) => s,
        None => return None,
    };
    let contract = match find_contract(lists.exchange.get("symbols"), symbol) {
        Some(c) => c,
        None => return None,
    };
    let book = match find_row(&lists.book, symbol, None, None) {
        Some(b) => b,
        None => return None,
    };
    let base = match contract.get("baseAsset").as_str() {
        Some(s) => s.to_owned(),
        None => return None,
    };
    let bid = match number(book.get("bidPrice")) {
        Some(x) => x,
        None => return None,
    };
    let ask = match number(book.get("askPrice")) {
        Some(x) => x,
        None => return None,
    };
    let mark = match number(item.get("markPrice")) {
        Some(x) => x,
        None => return None,
    };
    let next_funding_time: i64 = match item.get("nextFundingTime").as_i64() {
        Some(t) => t,
        None => return None,
    };
    let zero = Double { bits: ZERO };
    let tradefi: bool = contract.get("contractType").equals_text("TRADIFI_PERPETUAL") || find_text(
        contract.get("underlyingSubType"),
        "TradFi",
    );
    Some(
        Leg {
            exchange: "Binance".to_owned(),
            market: "perpetual".to_owned(),
            base,
            symbol: symbol.to_owned(),
            bid,
            ask,
            bid_quantity: number_or(book.get("bidQty"), zero),
            ask_quantity: number_or(book.get("askQty"), zero),
            mark,
            rate: number_or(item.get("lastFundingRate"), zero),
            interval_hours: find_interval(&lists.funding, symbol),
            next_funding_time,
            qty_step: find_lot_step(contract),
            tags: make_tags(tradefi),
            volume_24h_usdt: find_value(&lists.volumes, symbol, "quoteVolume", zero),
        },
    )
}

/// The perpetual contracts of Binance.
pub fn binance_markets(lists: &BinanceLists) -> (legs: Vec<Leg>)
    ensures
        are_binance_perpetuals(legs@, lists.premium.elements(), *lists),
{
    let mut legs: Vec<Leg> = Vec::new();
    let rows = match lists.premium.as_array() {
        Some(rows) => rows,
        None => return legs,
    };
    let mut i: usize = 0;
    proof {
        assert(rows@.take(0) =~= Seq::<Json>::empty());
    }
    while i < rows.len()
        invariant
            i <= rows@.len(),
            are_binance_perpetuals(legs@, rows@.take(i as int), *lists),
        decreases rows@.len() - i,
    {
        let ghost before = legs@;
        proof {
            assert(rows@.take(i as int + 1).drop_last() =~= rows@.take(i as int));
            assert(rows@.take(i as int + 1).last() == rows@[i as int]);
        }
        if let Some(leg) = decode_binance_market(&rows[i], lists) {
            legs.push(leg);
            proof {
                assert(legs@.drop_last() =~= before);
            }
        }
        i = i + 1;
    }
    proof {
        assert(rows@.take(rows@.len() as int) =~= rows@);
    }
    legs
}

/// Whether Bybit trades a perpetual contract against USDT.
pub open spec fn is_instrument(item: Json) -> bool {
    &&& item.member("quoteCoin"@).is_text("USDT"@)
    &&& item.member("contractType"@).is_text("LinearPerpetual"@)
    &&& item.member("status"@).is_text("Trading"@)
    &&& item.member("symbol"@).string() is Some
    &&& item.member("baseCoin"@).string() is Some
}

/// The last perpetual contract of a symbol that Bybit trades.
pub open spec fn instrument_of(items: Seq<Json>, symbol: Seq<char>) -> Option<Json>
    decreases items.len(),
{
    if items.len() == 0 {
        None
    } else if is_instrument(items.last()) && items.last().member("symbol"@).is_text(symbol) {
        Some(items.last())
    } else {
        instrument_of(items.drop_last(), symbol)
    }
}

fn find_instrument<'a>(list: &'a Json, symbol: &str) -> (r: Option<&'a Json>)
    ensures
        match r {
            Some(item) => instrument_of(list.elements(), symbol@) == Some(*item) && is_instrument(*item),
            None => instrument_of(list.elements(), symbol@) is None,
        },
{
    let items = match list.as_array() {
        Some(items) => items,
        None => return None,
    };
    let mut n: usize = items.len();
    proof {
        assert(items@.take(n as int) =~= items@);
    }
    while n > 0
        invariant
            n <= items@.len(),
            items@ == list.elements(),
            instrument_of(items@, symbol@) == instrument_of(items@.take(n as int), symbol@),
        decreases n,
    {
        proof {
            assert(items@.take(n as int).last() == items@[n - 1]);
            assert(items@.take(n as int).drop_last() =~= items@.take(n - 1));
        }
        let item = &items[n - 1];
        if item.get("symbol").equals_text(symbol) && item.get("quoteCoin").equals_text("USDT") && item.get(
            "contractType",
        ).equals_text("LinearPerpetual") && item.get("status").equals_text("Trading") && item.get(
            "baseCoin",
        ).as_str().is_some() {
            return Some(item);
        }
        n = n - 1;
    }
    None
}

/// A number that is spelled as text, or a thousandth.
pub open spec fn step_or_thousandth(value: Json) -> Double {
    match value.spelled() {
        Some(x) => x,
        None => Double { bits: THOUSANDTH },
    }
}

fn read_step(value: &Json) -> (x: Double)
    ensures
        x == step_or_thousandth(*value),
{
    match value.as_spelled() {
        Some(x) => x,
        None => Double { bits: THOUSANDTH },
    }
}

/// Whether a line of Bybit gives a leg.
pub open spec fn is_bybit_market(item: Json, instruments: Seq<Json>) -> bool {
    &&& item.member("symbol"@).string() is Some
    &&& instrument_of(instruments, item.member("symbol"@).string()->0) is Some
    &&& item.member("bid1Price"@).amount() is Some
    &&& item.member("ask1Price"@).amount() is Some
    &&& item.member("markPrice"@).amount() is Some
    &&& item.member("nextFundingTime"@).spelled_integer() is Some
}

/// Whether a leg is the one on a line of Bybit.
pub open spec fn is_bybit_perpetual(leg: Leg, item: Json, instruments: Seq<Json>) -> bool {
    let symbol = item.member("symbol"@).string()->0;
    let instrument = instrument_of(instruments, symbol)->0;
    &&& leg.exchange@ == "Bybit"@
    &&& leg.market@ == "perpetual"@
    &&& instrument.member("baseCoin"@).is_text(leg.base@)
    &&& leg.symbol@ == symbol
    &&& Some(leg.bid) == item.member("bid1Price"@).amount()
    &&& Some(leg.ask) == item.member("ask1Price"@).amount()
    &&& leg.bid_quantity == amount_or(item.member("bid1Size"@), ZERO)
    &&& leg.ask_quantity == amount_or(item.member("ask1Size"@), ZERO)
    &&& Some(leg.mark) == item.member("markPrice"@).amount()
    &&& leg.rate == amount_or(item.member("fundingRate"@), ZERO)
    &&& leg.interval_hours == amount_or(
        instrument.member("fundingInterval"@),
        EIGHT_HOURS_IN_MINUTES,
    ).div_spec(Double { bits: SIXTY })
    &&& Some(leg.next_funding_time) == item.member("nextFundingTime"@).spelled_integer()
    &&& leg.qty_step == step_or_thousandth(instrument.member("lotSizeFilter"@).member("qtyStep"@))
    &&& texts(leg.tags@) == leg_tags(
        instrument.member("symbolType"@).is_text("stock"@) || instrument.member("symbolType"@).is_text(
            "commodity"@,
        ),
    )
    &&& leg.volume_24h_usdt == amount_or(item.member("turnover24h"@), ZERO)
}

/// Whether legs are those of Bybit's perpetual contracts, in its order.
pub open spec fn are_bybit_perpetuals(legs: Seq<Leg>, items: Seq<Json>, instruments: Seq<Json>) -> bool
    decreases items.len(),
{
    if items.len() == 0 {
        legs.len() == 0
    } else if is_bybit_market(items.last(), instruments) {
        legs.len() > 0 && is_bybit_perpetual(legs.last(), items.last(), instruments)
            && are_bybit_perpetuals(legs.drop_last(), items.drop_last(), instruments)
    } else {
        are_bybit_perpetuals(legs, items.drop_last(), instruments)
    }
}

fn decode_bybit_market(item: &Json, instruments: &Json) -> (r: Option<Leg>)
    ensures
        match r {
            Some(leg) => is_bybit_market(*item, instruments.elements()) && is_bybit_perpetual(
                leg,
                *item,
                instruments.elements(),
            ),
            None => !is_bybit_market(*item, instruments.elements()),
        },
{
    let symbol = match item.get("symbol").as_str() {
        Some(s) => s,
        None => return None,
    };
    let instrument = match find_instrument(instruments, symbol) {
        Some(x) => x,
        None => return None,
    };
    let base = match instrument.get("baseCoin").as_str() {
        Some(s) => s.to_owned(),
        None => return None,
    };
    let bid = match number(item.get("bid1Price")) {
        Some(x) => x,
        None => return None,
    };
    let ask = match number(item.get("ask1Price")) {
        Some(x) => x,
        None => return None,
    };
    let mark = match number(item.get("markPrice")) {
        Some(x) => x,
        None => return None,
    };
    let next_funding_time: i64 = match item.get("nextFundingTime").as_spelled_integer() {
        Some(t) => t,
        None => return None,
    };
    let zero = Double { bits: ZERO };
    let kind = instrument.get("symbolType");
    let tradefi: bool = kind.equals_text("stock") || kind.equals_text("commodity");
    Some(
        Leg {
            exchange: "Bybit".to_owned(),
            market: "perpetual".to_owned(),
            base,
            symbol: symbol.to_owned(),
            bid,
            ask,
            bid_quantity: number_or(item.get("bid1Size"), zero),
            ask_quantity: number_or(item.get("ask1Size"), zero),
            mark,
            rate: number_or(item.get("fundingRate"), zero),
            interval_hours: number_or(
                instrument.get("fundingInterval"),
                Double { bits: EIGHT_HOURS_IN_MINUTES },
            ).div(Double { bits: SIXTY }),
            next_funding_time,
            qty_step: read_step(instrument.get("lotSizeFilter").get("qtyStep")),
            tags: make_tags(tradefi),
            volume_24h_usdt: number_or(item.get("turnover24h"), zero),
        },
    )
}

/// The perpetual contracts of Bybit.
pub fn bybit_markets(tickers: &Json, instruments: &Json) -> (legs: Vec<Leg>)
    ensures
        are_bybit_perpetuals(
            legs@,
            tickers.member("result"@).member("list"@).elements(),
            instruments.member("result"@).member("list"@).elements(),
        ),
{
    let mut legs: Vec<Leg> = Vec::new();
    let known = instruments.get("result").get("list");
    let rows = match tickers.get("result").get("list").as_array() {
        Some(rows) => rows,
        None => return legs,
    };
    let mut i: usize = 0;
    proof {
        assert(rows@.take(0) =~= Seq::<Json>::empty());
    }
    while i < rows.len()
        invariant
            i <= rows@.len(),
            are_bybit_perpetuals(legs@, rows@.take(i as int), known.elements()),
        decreases rows@.len() - i,
    {
        let ghost before = legs@;
        proof {
            assert(rows@.take(i as int + 1).drop_last() =~= rows@.take(i as int));
            assert(rows@.take(i as int + 1).last() == rows@[i as int]);
        }
        if let Some(leg) = decode_bybit_market(&rows[i], known) {
            legs.push(leg);
            proof {
                assert(legs@.drop_last() =~= before);
            }
        }
        i = i + 1;
    }
    proof {
        assert(rows@.take(rows@.len() as int) =~= rows@);
    }
    legs
}

/// The last price that Binance gives for a coin, and what was traded of it.
pub open spec fn spot_ticker(tickers: Seq<Json>, symbol: Seq<char>) -> (Double, Double) {
    match row_of(tickers, symbol, None, None) {
        Some(item) => (
            amount_or(item.member("quoteVolume"@), ZERO),
            amount_or(item.member("lastPrice"@), ZERO),
        ),
        None => (Double { bits: ZERO }, Double { bits: ZERO }),
    }
}

/// The book of a coin, where it has both prices.
pub open spec fn spot_book(books: Seq<Json>, symbol: Seq<char>) -> Option<Json> {
    row_of(books, symbol, Some("bidPrice"@), Some("askPrice"@))
}

/// Whether a coin of Binance can be borrowed against USDT and has a price.
pub open spec fn is_binance_coin(item: Json, books: Seq<Json>) -> bool {
    &&& item.member("quoteAsset"@).is_text("USDT"@)
    &&& item.member("status"@).is_text("TRADING"@)
    &&& item.member("isMarginTradingAllowed"@).flag() == Some(true)
    &&& item.member("symbol"@).string() is Some
    &&& item.member("baseAsset"@).string() is Some
    &&& spot_book(books, item.member("symbol"@).string()->0) is Some
}

/// Whether a leg is the coin on a line of Binance.
pub open spec fn is_binance_spot(leg: Leg, item: Json, books: Seq<Json>, tickers: Seq<Json>) -> bool {
    let symbol = item.member("symbol"@).string()->0;
    let book = spot_book(books, symbol)->0;
    let (volume, last) = spot_ticker(tickers, symbol);
    let zero = Double { bits: ZERO };
    &&& leg.exchange@ == "Binance"@
    &&& leg.market@ == "spot"@
    &&& item.member("baseAsset"@).is_text(leg.base@)
    &&& leg.symbol@ == symbol
    &&& Some(leg.bid) == book.member("bidPrice"@).amount()
    &&& Some(leg.ask) == book.member("askPrice"@).amount()
    &&& leg.bid_quantity == amount_or(book.member("bidQty"@), ZERO)
    &&& leg.ask_quantity == amount_or(book.member("askQty"@), ZERO)
    &&& leg.mark == (if zero.lt_spec(last) {
        last
    } else {
        leg.bid.add_spec(leg.ask).div_spec(Double { bits: TWO })
    })
    &&& leg.rate == zero
    &&& leg.interval_hours == zero
    &&& leg.next_funding_time == 0
    &&& leg.qty_step == lot_step(item)
    &&& leg.tags@ == Seq::<String>::empty()
    &&& leg.volume_24h_usdt == volume
}

/// Whether legs are the coins of Binance, in its order.
pub open spec fn are_binance_spots(legs: Seq<Leg>, items: Seq<Json>, books: Seq<Json>, tickers: Seq<Json>) -> bool
    decreases items.len(),
{
    if items.len() == 0 {
        legs.len() == 0
    } else if is_binance_coin(items.last(), books) {
        legs.len() > 0 && is_binance_spot(legs.last(), items.last(), books, tickers) && are_binance_spots(
            legs.drop_last(),
            items.drop_last(),
            books,
            tickers,
        )
    } else {
        are_binance_spots(legs, items.drop_last(), books, tickers)
    }
}

fn decode_binance_coin(item: &Json, books: &Json, tickers: &Json) -> (r: Option<Leg>)
    ensures
        match r {
            Some(leg) => is_binance_coin(*item, books.elements()) && is_binance_spot(
                leg,
                *item,
                books.elements(),
                tickers.elements(),
            ),
            None => !is_binance_coin(*item, books.elements()),
        },
{
    let margin: bool = match item.get("isMarginTradingAllowed").as_bool() {
        Some(b) => b,
        None => false,
    };
    if !item.get("quoteAsset").equals_text("USDT") || !item.get("status").equals_text("TRADING") || !margin {
        return None;
    }
    let symbol = match item.get("symbol").as_str() {
        Some(s) => s,
        None => return None,
    };
    let base = match item.get("baseAsset").as_str() {
        Some(s) => s.to_owned(),
        None => return None,
    };
    let book = match find_row(books, symbol, Some("bidPrice"), Some("askPrice")) {
        Some(b) => b,
        None => return None,
    };
    proof {
        lemma_row_is_row(books.elements(), symbol@, Some("bidPrice"@), Some("askPrice"@));
    }
    let zero = Double { bits: ZERO };
    let bid = number_or(book.get("bidPrice"), zero);
    let ask = number_or(book.get("askPrice"), zero);
    let (volume, last) = match find_row(tickers, symbol, None, None) {
        Some(t) => (number_or(t.get("quoteVolume"), zero), number_or(t.get("lastPrice"), zero)),
        None => (zero, zero),
    };
    Some(
        Leg {
            exchange: "Binance".to_owned(),
            market: "spot".to_owned(),
            base,
            symbol: symbol.to_owned(),
            bid,
            ask,
            bid_quantity: number_or(book.get("bidQty"), zero),
            ask_quantity: number_or(book.get("askQty"), zero),
            mark: if last.gt(zero) {
                last
            } else {
                bid.add(ask).div(Double { bits: TWO })
            },
            rate: zero,
            interval_hours: zero,
            next_funding_time: 0,
            qty_step: find_lot_step(item),
            tags: Vec::new(),
            volume_24h_usdt: volume,
        },
    )
}

/// The coins of Binance that can be borrowed.
pub fn binance_spot_markets(exchange: &Json, books: &Json, tickers: &Json) -> (legs: Vec<Leg>)
    ensures
        are_binance_spots(
            legs@,
            exchange.member("symbols"@).elements(),
            books.elements(),
            tickers.elements(),
        ),
{
    let mut legs: Vec<Leg> = Vec::new();
    let rows = match exchange.get("symbols").as_array() {
        Some(rows) => rows,
        None => return legs,
    };
    let mut i: usize = 0;
    proof {
        assert(rows@.take(0) =~= Seq::<Json>::empty());
    }
    while i < rows.len()
        invariant
            i <= rows@.len(),
            are_binance_spots(legs@, rows@.take(i as int), books.elements(), tickers.elements()),
        decreases rows@.len() - i,
    {
        let ghost before = legs@;
        proof {
            assert(rows@.take(i as int + 1).drop_last() =~= rows@.take(i as int));
            assert(rows@.take(i as int + 1).last() == rows@[i as int]);
        }
        if let Some(leg) = decode_binance_coin(&rows[i], books, tickers) {
            legs.push(leg);
            proof {
                assert(legs@.drop_last() =~= before);
            }
        }
        i = i + 1;
    }
    proof {
        assert(rows@.take(rows@.len() as int) =~= rows@);
    }
    legs
}

/// Whether a coin of Bybit can be traded on margin.
pub open spec fn on_margin(item: Json) -> bool {
    match item.member("marginTrading"@).string() {
        Some(s) => s != ""@ && s != "none"@,
        None => false,
    }
}

/// Whether a coin of Bybit can be borrowed against USDT and has a price.
pub open spec fn is_bybit_coin(item: Json, tickers: Seq<Json>) -> bool {
    &&& item.member("quoteCoin"@).is_text("USDT"@)
    &&& item.member("status"@).is_text("Trading"@)
    &&& on_margin(item)
    &&& item.member("symbol"@).string() is Some
    &&& item.member("baseCoin"@).string() is Some
    &&& row_of(tickers, item.member("symbol"@).string()->0, None, None) matches Some(ticker)
    &&& ticker.member("bid1Price"@).amount() is Some
    &&& ticker.member("ask1Price"@).amount() is Some
}

/// Whether a leg is the coin on a line of Bybit.
pub open spec fn is_bybit_spot(leg: Leg, item: Json, tickers: Seq<Json>) -> bool {
    let symbol = item.member("symbol"@).string()->0;
    let ticker = row_of(tickers, symbol, None, None)->0;
    let zero = Double { bits: ZERO };
    &&& leg.exchange@ == "Bybit"@
    &&& leg.market@ == "spot"@
    &&& item.member("baseCoin"@).is_text(leg.base@)
    &&& leg.symbol@ == symbol
    &&& Some(leg.bid) == ticker.member("bid1Price"@).amount()
    &&& Some(leg.ask) == ticker.member("ask1Price"@).amount()
    &&& leg.bid_quantity == amount_or(ticker.member("bid1Size"@), ZERO)
    &&& leg.ask_quantity == amount_or(ticker.member("ask1Size"@), ZERO)
    &&& leg.mark == (match ticker.member("lastPrice"@).amount() {
        Some(x) => x,
        None => leg.bid.add_spec(leg.ask).div_spec(Double { bits: TWO }),
    })
    &&& leg.rate == zero
    &&& leg.interval_hours == zero
    &&& leg.next_funding_time == 0
    &&& leg.qty_step == step_or_thousandth(item.member("lotSizeFilter"@).member("basePrecision"@))
    &&& leg.tags@ == Seq::<String>::empty()
    &&& leg.volume_24h_usdt == amount_or(ticker.member("turnover24h"@), ZERO)
}

/// Whether legs are the coins of Bybit, in its order.
pub open spec fn are_bybit_spots(legs: Seq<Leg>, items: Seq<Json>, tickers: Seq<Json>) -> bool
    decreases items.len(),
{
    if items.len() == 0 {
        legs.len() == 0
    } else if is_bybit_coin(items.last(), tickers) {
        legs.len() > 0 && is_bybit_spot(legs.last(), items.last(), tickers) && are_bybit_spots(
            legs.drop_last(),
            items.drop_last(),
            tickers,
        )
    } else {
        are_bybit_spots(legs, items.drop_last(), tickers)
    }
}

fn decode_bybit_coin(item: &Json, tickers: &Json) -> (r: Option<Leg>)
    ensures
        match r {
            Some(leg) => is_bybit_coin(*item, tickers.elements()) && is_bybit_spot(
                leg,
                *item,
                tickers.elements(),
            ),
            None => !is_bybit_coin(*item, tickers.elements()),
        },
{
    let margin: bool = match item.get("marginTrading").as_str() {
        Some(s) => !same(s, "") && !same(s, "none"),
        None => false,
    };
    if !item.get("quoteCoin").equals_text("USDT") || !item.get("status").equals_text("Trading") || !margin {
        return None;
    }
    let symbol = match item.get("symbol").as_str() {
        Some(s) => s,
        None => return None,
    };
    let base = match item.get("baseCoin").as_str() {
        Some(s) => s.to_owned(),
        None => return None,
    };
    let ticker = match find_row(tickers, symbol, None, None) {
        Some(t) => t,
        None => return None,
    };
    let bid = match number(ticker.get("bid1Price")) {
        Some(x) => x,
        None => return None,
    };
    let ask = match number(ticker.get("ask1Price")) {
        Some(x) => x,
        None => return None,
    };
    let zero = Double { bits: ZERO };
    Some(
        Leg {
            exchange: "Bybit".to_owned(),
            market: "spot".to_owned(),
            base,
            symbol: symbol.to_owned(),
            bid,
            ask,
            bid_quantity: number_or(ticker.get("bid1Size"), zero),
            ask_quantity: number_or(ticker.get("ask1Size"), zero),
            mark: number_or(ticker.get("lastPrice"), bid.add(ask).div(Double { bits: TWO })),
            rate: zero,
            interval_hours: zero,
            next_funding_time: 0,
            qty_step: read_step(item.get("lotSizeFilter").get("basePrecision")),
            tags: Vec::new(),
            volume_24h_usdt: number_or(ticker.get("turnover24h"), zero),
        },
    )
}

/// The coins of Bybit that can be borrowed.
pub fn bybit_spot_markets(instruments: &Json, tickers: &Json) -> (legs: Vec<Leg>)
    ensures
        are_bybit_spots(
            legs@,
            instruments.member("result"@).member("list"@).elements(),
            tickers.member("result"@).member("list"@).elements(),
        ),
{
    let mut legs: Vec<Leg> = Vec::new();
    let known = tickers.get("result").get("list");
    let rows = match instruments.get("result").get("list").as_array() {
        Some(rows) => rows,
        None => return legs,
    };
    let mut i: usize = 0;
    proof {
        assert(rows@.take(0) =~= Seq::<Json>::empty());
    }
    while i < rows.len()
        invariant
            i <= rows@.len(),
            are_bybit_spots(legs@, rows@.take(i as int), known.elements()),
        decreases rows@.len() - i,
    {
        let ghost before = legs@;
        proof {
            assert(rows@.take(i as int + 1).drop_last() =~= rows@.take(i as int));
            assert(rows@.take(i as int + 1).last() == rows@[i as int]);
        }
        if let Some(leg) = decode_bybit_coin(&rows[i], known) {
            legs.push(leg);
            proof {
                assert(legs@.drop_last() =~= before);
            }
        }
        i = i + 1;
    }
    proof {
        assert(rows@.take(rows@.len() as int) =~= rows@);
    }
    legs
}

/// What Binance marks a contract at, and its funding rate.
pub open spec fn mark_and_rate(marks: Seq<Json>, symbol: Seq<char>) -> (Double, Double) {
    match row_of(marks, symbol, Some("markPrice"@), None) {
        Some(item) => (
            item.member("markPrice"@).amount()->0,
            amount_or(item.member("lastFundingRate"@), ZERO),
        ),
        None => (Double { bits: ZERO }, Double { bits: ZERO }),
    }
}

/// Whether a line of a book gives a quote.
pub open spec fn is_quoted(item: Json) -> bool {
    &&& item.member("symbol"@).string() is Some
    &&& item.member("bidPrice"@).amount() is Some
    &&& item.member("askPrice"@).amount() is Some
}

/// Whether a quote is the one on a line of Binance's book.
pub open spec fn is_binance_quote(quote: PositionQuote, item: Json, marks: Seq<Json>, lasts: Seq<Json>) -> bool {
    let symbol = item.member("symbol"@).string()->0;
    let (mark, rate) = mark_and_rate(marks, symbol);
    let last = value_or(lasts, symbol, "price"@, mark);
    &&& quote.exchange@ == "Binance"@
    &&& quote.symbol@ == symbol
    &&& quote.mark_price == mark
    &&& quote.last_price == last
    &&& (quote.reference_price, quote.uses_last_price) == reference_price(mark, last)
    &&& Some(quote.bid_price) == item.member("bidPrice"@).amount()
    &&& Some(quote.ask_price) == item.member("askPrice"@).amount()
    &&& quote.funding_rate == rate
}

/// Whether quotes are those of Binance's book, in its order.
pub open spec fn are_binance_quotes(
    quotes: Seq<PositionQuote>,
    items: Seq<Json>,
    marks: Seq<Json>,
    lasts: Seq<Json>,
) -> bool
    decreases items.len(),
{
    if items.len() == 0 {
        quotes.len() == 0
    } else if is_quoted(items.last()) {
        quotes.len() > 0 && is_binance_quote(quotes.last(), items.last(), marks, lasts)
            && are_binance_quotes(quotes.drop_last(), items.drop_last(), marks, lasts)
    } else {
        are_binance_quotes(quotes, items.drop_last(), marks, lasts)
    }
}

/// Whether a line of Bybit's tickers gives a quote.
pub open spec fn is_ticker(item: Json) -> bool {
    &&& item.member("symbol"@).string() is Some
    &&& item.member("markPrice"@).amount() is Some
    &&& item.member("lastPrice"@).amount() is Some
    &&& item.member("bid1Price"@).amount() is Some
    &&& item.member("ask1Price"@).amount() is Some
}

/// Whether a quote is the one on a line of Bybit's tickers.
pub open spec fn is_bybit_quote(quote: PositionQuote, item: Json) -> bool {
    let mark = item.member("markPrice"@).amount()->0;
    let last = item.member("lastPrice"@).amount()->0;
    &&& quote.exchange@ == "Bybit"@
    &&& item.member("symbol"@).is_text(quote.symbol@)
    &&& quote.mark_price == mark
    &&& quote.last_price == last
    &&& (quote.reference_price, quote.uses_last_price) == reference_price(mark, last)
    &&& Some(quote.bid_price) == item.member("bid1Price"@).amount()
    &&& Some(quote.ask_price) == item.member("ask1Price"@).amount()
    &&& quote.funding_rate == amount_or(item.member("fundingRate"@), ZERO)
}

/// Whether quotes are those of Bybit's tickers, in its order.
pub open spec fn are_bybit_quotes(quotes: Seq<PositionQuote>, items: Seq<Json>) -> bool
    decreases items.len(),
{
    if items.len() == 0 {
        quotes.len() == 0
    } else if is_ticker(items.last()) {
        quotes.len() > 0 && is_bybit_quote(quotes.last(), items.last()) && are_bybit_quotes(
            quotes.drop_last(),
            items.drop_last(),
        )
    } else {
        are_bybit_quotes(quotes, items.drop_last())
    }
}

fn decode_binance_quote(item: &Json, marks: &Json, lasts: &Json) -> (r: Option<PositionQuote>)
    ensures
        match r {
            Some(quote) => is_quoted(*item) && is_binance_quote(
                quote,
                *item,
                marks.elements(),
                lasts.elements(),
            ),
            None => !is_quoted(*item),
        },
{
    let symbol = match item.get("symbol").as_str() {
        Some(s) => s,
        None => return None,
    };
    let bid_price = match number(item.get("bidPrice")) {
        Some(x) => x,
        None => return None,
    };
    let ask_price = match number(item.get("askPrice")) {
        Some(x) => x,
        None => return None,
    };
    let zero = Double { bits: ZERO };
    proof {
        lemma_row_is_row(marks.elements(), symbol@, Some("markPrice"@), None);
    }
    let (mark_price, funding_rate) = match find_row(marks, symbol, Some("markPrice"), None) {
        Some(row) => (number_or(row.get("markPrice"), zero), number_or(row.get("lastFundingRate"), zero)),
        None => (zero, zero),
    };
    let last_price = find_value(lasts, symbol, "price", mark_price);
    let (reference, uses_last_price) = strategy_reference_price(mark_price, last_price);
    Some(
        PositionQuote {
            exchange: "Binance".to_owned(),
            symbol: symbol.to_owned(),
            mark_price,
            last_price,
            reference_price: reference,
            uses_last_price,
            bid_price,
            ask_price,
            funding_rate,
        },
    )
}

fn decode_bybit_quote(item: &Json) -> (r: Option<PositionQuote>)
    ensures
        match r {
            Some(quote) => is_ticker(*item) && is_bybit_quote(quote, *item),
            None => !is_ticker(*item),
        },
{
    let symbol = match item.get("symbol").as_str() {
        Some(s) => s,
        None => return None,
    };
    let mark_price = match number(item.get("markPrice")) {
        Some(x) => x,
        None => return None,
    };
    let last_price = match number(item.get("lastPrice")) {
        Some(x) => x,
        None => return None,
    };
    let bid_price = match number(item.get("bid1Price")) {
        Some(x) => x,
        None => return None,
    };
    let ask_price = match number(item.get("ask1Price")) {
        Some(x) => x,
        None => return None,
    };
    let (reference, uses_last_price) = strategy_reference_price(mark_price, last_price);
    Some(
        PositionQuote {
            exchange: "Bybit".to_owned(),
            symbol: symbol.to_owned(),
            mark_price,
            last_price,
            reference_price: reference,
            uses_last_price,
            bid_price,
            ask_price,
            funding_rate: number_or(item.get("fundingRate"), Double { bits: ZERO }),
        },
    )
}

impl MarketService {
    /// The quotes that positions are valued at: those of Binance, then those of
    /// Bybit.
    pub fn position_quotes(marks: &Json, book: &Json, lasts: &Json, bybit: &Json) -> (quotes: Vec<PositionQuote>)
        ensures
            exists|first: Seq<PositionQuote>, second: Seq<PositionQuote>|
                quotes@ == first + second && #[trigger] are_binance_quotes(
                    first,
                    book.elements(),
                    marks.elements(),
                    lasts.elements(),
                ) && #[trigger] are_bybit_quotes(second, bybit.member("result"@).member("list"@).elements()),
    {
        let mut quotes: Vec<PositionQuote> = Vec::new();
        if let Some(rows) = book.as_array() {
            let mut i: usize = 0;
            proof {
                assert(rows@.take(0) =~= Seq::<Json>::empty());
            }
            while i < rows.len()
                invariant
                    i <= rows@.len(),
                    are_binance_quotes(
                        quotes@,
                        rows@.take(i as int),
                        marks.elements(),
                        lasts.elements(),
                    ),
                decreases rows@.len() - i,
            {
                let ghost before = quotes@;
                proof {
                    assert(rows@.take(i as int + 1).drop_last() =~= rows@.take(i as int));
                    assert(rows@.take(i as int + 1).last() == rows@[i as int]);
                }
                if let Some(quote) = decode_binance_quote(&rows[i], marks, lasts) {
                    quotes.push(quote);
                    proof {
                        assert(quotes@.drop_last() =~= before);
                    }
                }
                i = i + 1;
            }
            proof {
                assert(rows@.take(rows@.len() as int) =~= rows@);
            }
        }
        let ghost first = quotes@;
        let mut rest: Vec<PositionQuote> = Vec::new();
        if let Some(rows) = bybit.get("result").get("list").as_array() {
            let mut i: usize = 0;
            proof {
                assert(rows@.take(0) =~= Seq::<Json>::empty());
            }
            while i < rows.len()
                invariant
                    i <= rows@.len(),
                    are_bybit_quotes(rest@, rows@.take(i as int)),
                decreases rows@.len() - i,
            {
                let ghost before = rest@;
                proof {
                    assert(rows@.take(i as int + 1).drop_last() =~= rows@.take(i as int));
                    assert(rows@.take(i as int + 1).last() == rows@[i as int]);
                }
                if let Some(quote) = decode_bybit_quote(&rows[i]) {
                    rest.push(quote);
                    proof {
                        assert(rest@.drop_last() =~= before);
                    }
                }
                i = i + 1;
            }
            proof {
                assert(rows@.take(rows@.len() as int) =~= rows@);
            }
        }
        let ghost second = rest@;
        proof {
            assert(are_binance_quotes(first, book.elements(), marks.elements(), lasts.elements()));
            assert(are_bybit_quotes(second, bybit.member("result"@).member("list"@).elements()));
        }
        quotes.append(&mut rest);
        quotes
    }
}

/// The best prices of a market, and what can be traded at them.
#[derive(Clone, Copy, Debug, PartialEq, Eq, Structural)]
pub struct LiveQuote {
    pub bid: Double,
    pub ask: Double,
    pub bid_quantity: Double,
    pub ask_quantity: Double,
}

/// A quote read from four members of a value, if it has both prices.
pub open spec fn quote_from(value: Json, bid: Seq<char>, ask: Seq<char>, bid_size: Seq<char>, ask_size: Seq<char>) -> Option<
    LiveQuote,
> {
    match (value.member(bid).amount(), value.member(ask).amount()) {
        (Some(b), Some(a)) => Some(
            LiveQuote {
                bid: b,
                ask: a,
                bid_quantity: amount_or(value.member(bid_size), ZERO),
                ask_quantity: amount_or(value.member(ask_size), ZERO),
            },
        ),
        _ => None,
    }
}

fn read_quote(value: &Json, bid: &str, ask: &str, bid_size: &str, ask_size: &str) -> (r: Option<LiveQuote>)
    ensures
        r == quote_from(*value, bid@, ask@, bid_size@, ask_size@),
{
    match (number(value.get(bid)), number(value.get(ask))) {
        (Some(b), Some(a)) => Some(
            LiveQuote {
                bid: b,
                ask: a,
                bid_quantity: number_or(value.get(bid_size), Double { bits: ZERO }),
                ask_quantity: number_or(value.get(ask_size), Double { bits: ZERO }),
            },
        ),
        _ => None,
    }
}

/// The quote in a message of Binance.
pub fn live_quote_from_binance(value: &Json) -> (r: Option<LiveQuote>)
    ensures
        r == quote_from(*value, "b"@, "a"@, "B"@, "A"@),
{
    read_quote(value, "b", "a", "B", "A")
}

/// The quote in a message of Bybit: the first levels of its book where it has
/// both, otherwise its ticker.
pub open spec fn bybit_quote(value: Json) -> Option<LiveQuote> {
    let data = value.member("data"@);
    let bids = data.member("b"@).elements();
    let asks = data.member("a"@).elements();
    if bids.len() > 0 && asks.len() > 0 {
        match (bids[0].item(0).amount(), asks[0].item(0).amount()) {
            (Some(bid), Some(ask)) => Some(
                LiveQuote {
                    bid,
                    ask,
                    bid_quantity: amount_or(bids[0].item(1), ZERO),
                    ask_quantity: amount_or(asks[0].item(1), ZERO),
                },
            ),
            _ => None,
        }
    } else {
        quote_from(data, "bid1Price"@, "ask1Price"@, "bid1Size"@, "ask1Size"@)
    }
}

/// The quote in a message of Bybit.
pub fn live_quote_from_bybit(value: &Json) -> (r: Option<LiveQuote>)
    ensures
        r == bybit_quote(*value),
{
    let data = value.get("data");
    if let Some(bids) = data.get("b").as_array() {
        if let Some(asks) = data.get("a").as_array() {
            if bids.len() > 0 && asks.len() > 0 {
                return match (number(bids[0].nth(0)), number(asks[0].nth(0))) {
                    (Some(bid), Some(ask)) => Some(
                        LiveQuote {
                            bid,
                            ask,
                            bid_quantity: number_or(bids[0].nth(1), Double { bits: ZERO }),
                            ask_quantity: number_or(asks[0].nth(1), Double { bits: ZERO }),
                        },
                    ),
                    _ => None,
                };
            }
        }
    }
    read_quote(data, "bid1Price", "ask1Price", "bid1Size", "ask1Size")
}

/// Whether a leg is another one at a quote.
pub open spec fn at_quote(new: Leg, old: Leg, quote: LiveQuote) -> bool {
    new.copies(
        Leg {
            bid: quote.bid,
            ask: quote.ask,
            bid_quantity: quote.bid_quantity,
            ask_quantity: quote.ask_quantity,
            ..old
        },
    )
}

/// A leg at a quote.
pub fn apply_live_quote(leg: &Leg, quote: LiveQuote) -> (refreshed: Leg)
    ensures
        at_quote(refreshed, *leg, quote),
{
    let mut refreshed = leg.clone();
    refreshed.bid = quote.bid;
    refreshed.ask = quote.ask;
    refreshed.bid_quantity = quote.bid_quantity;
    refreshed.ask_quantity = quote.ask_quantity;
    refreshed
}

/// Where an exchange quotes one of its markets.
pub open spec fn quote_base(exchange: Seq<char>, market: Seq<char>) -> Option<Seq<char>> {
    if exchange == "Binance"@ && market == "perpetual"@ {
        Some("https://fapi.binance.com/fapi/v1/ticker/bookTicker?symbol="@)
    } else if exchange == "Binance"@ && market == "spot"@ {
        Some("https://api.binance.com/api/v3/ticker/bookTicker?symbol="@)
    } else if exchange == "Bybit"@ && market == "perpetual"@ {
        Some("https://api.bybit.com/v5/market/tickers?category=linear&symbol="@)
    } else if exchange == "Bybit"@ && market == "spot"@ {
        Some("https://api.bybit.com/v5/market/tickers?category=spot&symbol="@)
    } else {
        None
    }
}

/// Where the quote of a leg is asked for.
pub fn quote_url(leg: &Leg) -> (r: Result<String, Failure>)
    ensures
        match quote_base(leg.exchange@, leg.market@) {
            Some(base) => r matches Ok(url) && url@ == base + leg.symbol@,
            None => r matches Err(f) && f.reason is QuoteRoute && f.cause is None,
        },
{
    let binance: bool = same(leg.exchange.as_str(), "Binance");
    let bybit: bool = same(leg.exchange.as_str(), "Bybit");
    let perpetual: bool = same(leg.market.as_str(), "perpetual");
    let spot: bool = same(leg.market.as_str(), "spot");
    let base = if binance && perpetual {
        "https://fapi.binance.com/fapi/v1/ticker/bookTicker?symbol="
    } else if binance && spot {
        "https://api.binance.com/api/v3/ticker/bookTicker?symbol="
    } else if bybit && perpetual {
        "https://api.bybit.com/v5/market/tickers?category=linear&symbol="
    } else if bybit && spot {
        "https://api.bybit.com/v5/market/tickers?category=spot&symbol="
    } else {
        return Err(Failure::new(Reason::QuoteRoute));
    };
    Ok(join(base, leg.symbol.as_str()))
}

impl MarketService {
    /// Reads the quote of a leg out of an answer.
    pub fn refresh_leg_quote(leg: &Leg, answer: &Json) -> (r: Result<Leg, Failure>)
        ensures
            ({
                let binance = leg.exchange@ == "Binance"@;
                let list = answer.member("result"@).member("list"@).elements();
                let row = if binance {
                    *answer
                } else {
                    list[0]
                };
                let bid_field = if binance {
                    "bidPrice"@
                } else {
                    "bid1Price"@
                };
                let ask_field = if binance {
                    "askPrice"@
                } else {
                    "ask1Price"@
                };
                if !binance && list.len() == 0 {
                    r matches Err(f) && f.reason is BybitQuote && f.cause is None
                } else if row.member(bid_field).amount() is None {
                    r matches Err(f) && f.reason is BidQuote && f.cause is None
                } else if row.member(ask_field).amount() is None {
                    r matches Err(f) && f.reason is AskQuote && f.cause is None
                } else {
                    r matches Ok(refreshed) && at_quote(
                        refreshed,
                        *leg,
                        LiveQuote {
                            bid: row.member(bid_field).amount()->0,
                            ask: row.member(ask_field).amount()->0,
                            bid_quantity: amount_or(
                                row.member(
                                    if binance {
                                        "bidQty"@
                                    } else {
                                        "bid1Size"@
                                    },
                                ),
                                ZERO,
                            ),
                            ask_quantity: amount_or(
                                row.member(
                                    if binance {
                                        "askQty"@
                                    } else {
                                        "ask1Size"@
                                    },
                                ),
                                ZERO,
                            ),
                        },
                    )
                }
            }),
    {
        let binance: bool = same(leg.exchange.as_str(), "Binance");
        let row = if binance {
            answer
        } else {
            match answer.get("result").get("list").as_array() {
                Some(list) => {
                    if list.len() == 0 {
                        return Err(Failure::new(Reason::BybitQuote));
                    }
                    &list[0]
                },
                None => return Err(Failure::new(Reason::BybitQuote)),
            }
        };
        let (bid_field, ask_field, bid_size, ask_size) = if binance {
            ("bidPrice", "askPrice", "bidQty", "askQty")
        } else {
            ("bid1Price", "ask1Price", "bid1Size", "ask1Size")
        };
        let bid = match number(row.get(bid_field)) {
            Some(x) => x,
            None => return Err(Failure::new(Reason::BidQuote)),
        };
        let ask = match number(row.get(ask_field)) {
            Some(x) => x,
            None => return Err(Failure::new(Reason::AskQuote)),
        };
        let zero = Double { bits: ZERO };
        Ok(
            apply_live_quote(
                leg,
                LiveQuote {
                    bid,
                    ask,
                    bid_quantity: number_or(row.get(bid_size), zero),
                    ask_quantity: number_or(row.get(ask_size), zero),
                },
            ),
        )
    }
}

/// What `str::to_uppercase` makes of a text.
pub uninterp spec fn uppercase_text(text: Seq<char>) -> Seq<char>;

/// `str::to_uppercase`: the upper-case form of a text, as Unicode has it.
#[verifier::external_body]
pub(crate) fn to_uppercase(text: &str) -> (r: String)
    ensures
        r@ == uppercase_text(text@),
{
    text.to_uppercase()
}

/// Whether tokens are the listed assets, in their order.
pub open spec fn are_top_tokens(tokens: Seq<Token>, listed: CmcResponse) -> bool {
    &&& tokens.len() == listed.data@.len()
    &&& forall|i: int|
        0 <= i < tokens.len() ==> {
            &&& (#[trigger] tokens[i]).symbol@ == uppercase_text(listed.data@[i].symbol@)
            &&& tokens[i].name == listed.data@[i].name
            &&& tokens[i].rank == Some(listed.data@[i].cmc_rank)
            &&& texts(tokens[i].tags@) == seq!["cmc200"@]
        }
}

/// The listed assets as tokens.
pub fn top_tokens(listed: &CmcResponse) -> (tokens: Vec<Token>)
    ensures
        are_top_tokens(tokens@, *listed),
{
    let mut tokens: Vec<Token> = Vec::new();
    let mut i: usize = 0;
    while i < listed.data.len()
        invariant
            i <= listed.data@.len(),
            tokens@.len() == i,
            forall|k: int|
                0 <= k < i ==> {
                    &&& (#[trigger] tokens@[k]).symbol@ == uppercase_text(listed.data@[k].symbol@)
                    &&& tokens@[k].name == listed.data@[k].name
                    &&& tokens@[k].rank == Some(listed.data@[k].cmc_rank)
                    &&& texts(tokens@[k].tags@) == seq!["cmc200"@]
                },
        decreases listed.data@.len() - i,
    {
        let item = &listed.data[i];
        let mut tags: Vec<String> = Vec::new();
        tags.push("cmc200".to_owned());
        proof {
            assert(texts(tags@) =~= seq!["cmc200"@]);
        }
        tokens.push(
            Token {
                symbol: to_uppercase(item.symbol.as_str()),
                name: item.name.clone(),
                rank: Some(item.cmc_rank),
                tags,
            },
        );
        i = i + 1;
    }
    tokens
}

} // verus!
