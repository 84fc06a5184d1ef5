//! Reading what the exchanges hold for the desk.

use crate::account_stream::AccountBalance;
use crate::failure::{Failure, Reason};
use crate::json::{amount_or, number, number_or, Json};
use crate::models::{Leg, PositionLeg};
use crate::num::constants::{ONE, TWO, ZERO};
use crate::num::Double;
use crate::sorting::{is_stable_order, stable_order};
use crate::text::{base_of_symbol, same, without_suffixes};
use vstd::prelude::*;

verus! {

/// The side of an amount.
pub open spec fn side_of(amount: Double) -> Seq<char> {
    if (Double { bits: ZERO }).lt_spec(amount) {
        "long"@
    } else {
        "short"@
    }
}

/// Whether a line of Binance's positions is one that is held.
pub open spec fn is_risk(item: Json) -> bool {
    &&& item.member("positionAmt"@).spelled() is Some
    &&& !item.member("positionAmt"@).spelled()->0.eq_spec(Double { bits: ZERO })
    &&& item.member("symbol"@).string() is Some
    &&& item.member("entryPrice"@).amount() is Some
    &&& item.member("markPrice"@).amount() is Some
}

/// Whether a leg is the one on a line of Binance's positions.
pub open spec fn is_risk_leg(leg: PositionLeg, item: Json) -> bool {
    let amount = item.member("positionAmt"@).spelled()->0;
    &&& leg.exchange@ == "Binance"@
    &&& leg.market@ == "perpetual"@
    &&& item.member("symbol"@).is_text(leg.symbol@)
    &&& leg.side@ == side_of(amount)
    &&& leg.quantity == amount.abs_spec()
    &&& Some(leg.entry_price) == item.member("entryPrice"@).amount()
    &&& Some(leg.mark_price) == item.member("markPrice"@).amount()
    &&& leg.unrealized_pnl == amount_or(item.member("unRealizedProfit"@), ZERO)
    &&& leg.funding_earned == (Double { bits: ZERO })
    &&& leg.funding_rate == (Double { bits: ZERO })
    &&& leg.leverage == amount_or(item.member("leverage"@), ONE).saturated(255)
}

/// Whether legs are those on Binance's list, in its order.
pub open spec fn are_risk_legs(legs: Seq<PositionLeg>, items: Seq<Json>) -> bool
    decreases items.len(),
{
    if items.len() == 0 {
        legs.len() == 0
    } else if is_risk(items.last()) {
        legs.len() > 0 && is_risk_leg(legs.last(), items.last()) && are_risk_legs(
            legs.drop_last(),
            items.drop_last(),
        )
    } else {
        are_risk_legs(legs, items.drop_last())
    }
}

fn decode_risk(item: &Json) -> (r: Option<PositionLeg>)
    ensures
        match r {
            Some(leg) => is_risk(*item) && is_risk_leg(leg, *item),
            None => !is_risk(*item),
        },
{
    let amount = match item.get("positionAmt").as_spelled() {
        Some(amount) => amount,
        None => return None,
    };
    if amount.equals(Double { bits: ZERO }) {
        return None;
    }
    let symbol = match item.get("symbol").as_str() {
        Some(s) => s.to_owned(),
        None => return None,
    };
    let entry_price = match number(item.get("entryPrice")) {
        Some(x) => x,
        None => return None,
    };
    let mark_price = match number(item.get("markPrice")) {
        Some(x) => x,
        None => return None,
    };
    let side = if amount.gt(Double { bits: ZERO }) {
        "long"
    } else {
        "short"
    };
    Some(
        PositionLeg {
            exchange: "Binance".to_owned(),
            market: "perpetual".to_owned(),
            symbol,
            side: side.to_owned(),
            quantity: amount.abs(),
            entry_price,
            mark_price,
            unrealized_pnl: number_or(item.get("unRealizedProfit"), Double { bits: ZERO }),
            funding_earned: Double { bits: ZERO },
            funding_rate: Double { bits: ZERO },
            leverage: number_or(item.get("leverage"), Double { bits: ONE }).to_unsigned(255) as u8,
        },
    )
}

/// The legs that Binance lists.
pub fn binance_positions(answer: &Json) -> (legs: Vec<PositionLeg>)
    ensures
        are_risk_legs(legs@, answer.elements()),
{
    let mut legs: Vec<PositionLeg> = Vec::new();
    let rows = match answer.as_array() {
        Some(rows) => rows,
        None => return legs,
    };
    let mut i: usize = 0;
    proof {
        assert(rows@.take(0) =~= Seq::<Json>::empty());
    }
    while i < rows.len()
        invariant
            i <= rows@.len(),
            are_risk_legs(legs@, rows@.take(i as int)),
        decreases rows@.len() - i,
    {
        let ghost before = legs@;
        proof {
            assert(rows@.take(i as int + 1).drop_last() =~= rows@.take(i as int));
            assert(rows@.take(i as int + 1).last() == rows@[i as int]);
        }
        if let Some(leg) = decode_risk(&rows[i]) {
            legs.push(leg);
            proof {
                assert(legs@.drop_last() =~= before);
            }
        }
        i = i + 1;
    }
    proof {
        assert(rows@.take(rows@.len() as int) =~= rows@);
    }
    legs
}

/// Whether a line of Bybit's positions is one that is held.
pub open spec fn is_linear(item: Json) -> bool {
    &&& item.member("size"@).amount() is Some
    &&& !item.member("size"@).amount()->0.eq_spec(Double { bits: ZERO })
    &&& item.member("symbol"@).string() is Some
    &&& item.member("avgPrice"@).amount() is Some
    &&& item.member("markPrice"@).amount() is Some
}

/// Whether a leg is the one on a line of Bybit's positions.
pub open spec fn is_linear_leg(leg: PositionLeg, item: Json) -> bool {
    &&& leg.exchange@ == "Bybit"@
    &&& leg.market@ == "perpetual"@
    &&& item.member("symbol"@).is_text(leg.symbol@)
    &&& leg.side@ == (if item.member("side"@).is_text("Buy"@) {
        "long"@
    } else {
        "short"@
    })
    &&& Some(leg.quantity) == item.member("size"@).amount()
    &&& Some(leg.entry_price) == item.member("avgPrice"@).amount()
    &&& Some(leg.mark_price) == item.member("markPrice"@).amount()
    &&& leg.unrealized_pnl == amount_or(item.member("unrealisedPnl"@), ZERO)
    &&& leg.funding_earned == (Double { bits: ZERO })
    &&& leg.funding_rate == (Double { bits: ZERO })
    &&& leg.leverage == amount_or(item.member("leverage"@), ONE).saturated(255)
}

/// Whether legs are those on Bybit's list, in its order.
pub open spec fn are_linear_legs(legs: Seq<PositionLeg>, items: Seq<Json>) -> bool
    decreases items.len(),
{
    if items.len() == 0 {
        legs.len() == 0
    } else if is_linear(items.last()) {
        legs.len() > 0 && is_linear_leg(legs.last(), items.last()) && are_linear_legs(
            legs.drop_last(),
            items.drop_last(),
        )
    } else {
        are_linear_legs(legs, items.drop_last())
    }
}

fn decode_linear(item: &Json) -> (r: Option<PositionLeg>)
    ensures
        match r {
            Some(leg) => is_linear(*item) && is_linear_leg(leg, *item),
            None => !is_linear(*item),
        },
{
    let quantity = match number(item.get("size")) {
        Some(x) => x,
        None => return None,
    };
    if quantity.equals(Double { bits: ZERO }) {
        return None;
    }
    let symbol = match item.get("symbol").as_str() {
        Some(s) => s.to_owned(),
        None => return None,
    };
    let entry_price = match number(item.get("avgPrice")) {
        Some(x) => x,
        None => return None,
    };
    let mark_price = match number(item.get("markPrice")) {
        Some(x) => x,
        None => return None,
    };
    let side = if item.get("side").equals_text("Buy") {
        "long"
    } else {
        "short"
    };
    Some(
        PositionLeg {
            exchange: "Bybit".to_owned(),
            market: "perpetual".to_owned(),
            symbol,
            side: side.to_owned(),
            quantity,
            entry_price,
            mark_price,
            unrealized_pnl: number_or(item.get("unrealisedPnl"), Double { bits: ZERO }),
            funding_earned: Double { bits: ZERO },
            funding_rate: Double { bits: ZERO },
            leverage: number_or(item.get("leverage"), Double { bits: ONE }).to_unsigned(255) as u8,
        },
    )
}

/// The legs that Bybit lists.
pub fn bybit_positions(answer: &Json) -> (legs: Vec<PositionLeg>)
    ensures
        are_linear_legs(legs@, answer.member("result"@).member("list"@).elements()),
{
    let mut legs: Vec<PositionLeg> = Vec::new();
    let rows = match answer.get("result").get("list").as_array() {
        Some(rows) => rows,
        None => return legs,
    };
    let mut i: usize = 0;
    proof {
        assert(rows@.take(0) =~= Seq::<Json>::empty());
    }
    while i < rows.len()
        invariant
            i <= rows@.len(),
            are_linear_legs(legs@, rows@.take(i as int)),
        decreases rows@.len() - i,
    {
        let ghost before = legs@;
        proof {
            assert(rows@.take(i as int + 1).drop_last() =~= rows@.take(i as int));
            assert(rows@.take(i as int + 1).last() == rows@[i as int]);
        }
        if let Some(leg) = decode_linear(&rows[i]) {
            legs.push(leg);
            proof {
                assert(legs@.drop_last() =~= before);
            }
        }
        i = i + 1;
    }
    proof {
        assert(rows@.take(rows@.len() as int) =~= rows@);
    }
    legs
}

/// The balance that Binance reports.
pub fn binance_balance(answer: &Json) -> (balance: AccountBalance)
    ensures
        balance == (AccountBalance {
            equity: amount_or(answer.member("totalWalletBalance"@), ZERO),
            available: amount_or(answer.member("availableBalance"@), ZERO),
            unrealized_pnl: amount_or(answer.member("totalUnrealizedProfit"@), ZERO),
        }),
{
    AccountBalance {
        equity: number_or(answer.get("totalWalletBalance"), Double { bits: ZERO }),
        available: number_or(answer.get("availableBalance"), Double { bits: ZERO }),
        unrealized_pnl: number_or(answer.get("totalUnrealizedProfit"), Double { bits: ZERO }),
    }
}

/// The balance that Bybit reports: that of the first account on its list.
pub fn bybit_balance(answer: &Json) -> (r: Result<AccountBalance, Failure>)
    ensures
        ({
            let list = answer.member("result"@).member("list"@).elements();
            if list.len() > 0 {
                r == Ok::<AccountBalance, Failure>(
                    AccountBalance {
                        equity: amount_or(list[0].member("totalEquity"@), ZERO),
                        available: amount_or(list[0].member("totalAvailableBalance"@), ZERO),
                        unrealized_pnl: amount_or(list[0].member("totalPerpUPL"@), ZERO),
                    },
                )
            } else {
                r matches Err(f) && f.reason is BybitWalletMissing && f.cause is None
            }
        }),
{
    let list = match answer.get("result").get("list").as_array() {
        Some(list) => list,
        None => return Err(Failure::new(Reason::BybitWalletMissing)),
    };
    if list.len() == 0 {
        return Err(Failure::new(Reason::BybitWalletMissing));
    }
    let account = &list[0];
    Ok(
        AccountBalance {
            equity: number_or(account.get("totalEquity"), Double { bits: ZERO }),
            available: number_or(account.get("totalAvailableBalance"), Double { bits: ZERO }),
            unrealized_pnl: number_or(account.get("totalPerpUPL"), Double { bits: ZERO }),
        },
    )
}

/// What can be borrowed of an asset.
pub fn max_borrowable(answer: &Json, asset: &str) -> (r: Result<Double, Failure>)
    ensures
        match answer.member("amount"@).amount() {
            Some(x) => r == Ok::<Double, Failure>(x),
            None => {
                &&& r matches Err(f)
                &&& f.cause is None
                &&& f.reason matches Reason::NoBorrowable { asset: a }
                &&& a@ == asset@
            },
        },
{
    match number(answer.get("amount")) {
        Some(x) => Ok(x),
        None => Err(Failure::new(Reason::NoBorrowable { asset: asset.to_owned() })),
    }
}

/// The first line of the margin account that is about an asset.
pub open spec fn asset_line(items: Seq<Json>, asset: Seq<char>) -> Option<Json>
    decreases items.len(),
{
    if items.len() == 0 {
        None
    } else if items[0].member("asset"@).is_text(asset) {
        Some(items[0])
    } else {
        asset_line(items.drop_first(), asset)
    }
}

fn find_asset<'a>(account: &'a Json, asset: &str) -> (r: Option<&'a Json>)
    ensures
        match r {
            Some(item) => asset_line(account.member("userAssets"@).elements(), asset@) == Some(*item),
            None => asset_line(account.member("userAssets"@).elements(), asset@) is None,
        },
{
    let items = match account.get("userAssets").as_array() {
        Some(items) => items,
        None => return None,
    };
    let mut i: usize = 0;
    proof {
        assert(items@.skip(0) =~= items@);
    }
    while i < items.len()
        invariant
            i <= items@.len(),
            items@ == account.member("userAssets"@).elements(),
            asset_line(items@, asset@) == asset_line(items@.skip(i as int), asset@),
        decreases items@.len() - i,
    {
        proof {
            assert(items@.skip(i as int)[0] == items@[i as int]);
            assert(items@.skip(i as int).drop_first() =~= items@.skip(i as int + 1));
        }
        if items[i].get("asset").equals_text(asset) {
            return Some(&items[i]);
        }
        i = i + 1;
    }
    None
}

/// What is owed of an asset: what was borrowed, and the interest on it.
#[derive(Clone, Copy, Debug, PartialEq, Eq, Structural)]
pub struct Debt {
    pub total: Double,
    pub interest: Double,
}

/// What a line of the margin account says is owed.
pub open spec fn debt_of(item: Json) -> Debt {
    let interest = amount_or(item.member("interest"@), ZERO);
    Debt { total: amount_or(item.member("borrowed"@), ZERO).add_spec(interest), interest }
}

fn read_debt(item: &Json) -> (debt: Debt)
    ensures
        debt == debt_of(*item),
{
    let interest = number_or(item.get("interest"), Double { bits: ZERO });
    Debt { total: number_or(item.get("borrowed"), Double { bits: ZERO }).add(interest), interest }
}

/// What is owed of the asset of a leg, unless it is less than half a step.
pub fn margin_debt(account: &Json, leg: &Leg) -> (r: Result<Option<Debt>, Failure>)
    ensures
        match asset_line(account.member("userAssets"@).elements(), leg.base@) {
            None => {
                &&& r matches Err(f)
                &&& f.cause is None
                &&& f.reason matches Reason::MarginAsset { base }
                &&& base@ == leg.base@
            },
            Some(item) => r == Ok::<Option<Debt>, Failure>(
                if debt_of(item).total.le_spec(leg.qty_step.div_spec(Double { bits: TWO })) {
                    None
                } else {
                    Some(debt_of(item))
                },
            ),
        },
{
    let item = match find_asset(account, leg.base.as_str()) {
        Some(item) => item,
        None => return Err(Failure::new(Reason::MarginAsset { base: leg.base.clone() })),
    };
    let debt = read_debt(item);
    if debt.total.le(leg.qty_step.div(Double { bits: TWO })) {
        Ok(None)
    } else {
        Ok(Some(debt))
    }
}

/// The times of trades; those without one come first.
pub open spec fn times(items: Seq<Json>) -> Seq<i128> {
    Seq::new(
        items.len(),
        |i: int|
            match items[i].member("time"@).integer() {
                Some(t) => t as i128,
                None => 0i128,
            },
    )
}

/// What is sold short, and what was got for it.
#[derive(Clone, Copy, Debug, PartialEq, Eq, Structural)]
pub struct ShortBook {
    pub quantity: Double,
    pub proceeds: Double,
}

/// What was paid in a trade.
pub open spec fn quote_amount(trade: Json) -> Double {
    match trade.member("quoteQty"@).amount() {
        Some(x) => x,
        None => amount_or(trade.member("qty"@), ZERO).mul_spec(amount_or(trade.member("price"@), ZERO)),
    }
}

/// The book after one more trade: a sale adds to it, a purchase takes off at
/// the average price.
pub open spec fn traded(book: ShortBook, trade: Json) -> ShortBook {
    let zero = Double { bits: ZERO };
    let quantity = amount_or(trade.member("qty"@), ZERO);
    if trade.member("isBuyer"@).flag() == Some(true) {
        if zero.lt_spec(book.quantity) {
            let reduced = quantity.min_spec(book.quantity);
            let average = book.proceeds.div_spec(book.quantity);
            ShortBook {
                quantity: book.quantity.sub_spec(reduced),
                proceeds: book.proceeds.sub_spec(reduced.mul_spec(average)).max_spec(zero),
            }
        } else {
            book
        }
    } else {
        ShortBook {
            quantity: book.quantity.add_spec(quantity),
            proceeds: book.proceeds.add_spec(quote_amount(trade)),
        }
    }
}

/// The book after trades, in a given order.
pub open spec fn traded_all(items: Seq<Json>, order: Seq<usize>) -> ShortBook
    decreases order.len(),
{
    if order.len() == 0 {
        ShortBook { quantity: Double { bits: ZERO }, proceeds: Double { bits: ZERO } }
    } else {
        traded(traded_all(items, order.drop_last()), items[order.last() as int])
    }
}

/// The average price at which what is owed was sold, as far as the trades tell.
pub open spec fn entry_price_of(book: ShortBook, debt: Double) -> Option<Double> {
    let zero = Double { bits: ZERO };
    if book.quantity.le_spec(zero) || debt.le_spec(zero) {
        None
    } else {
        Some(book.proceeds.div_spec(book.quantity))
    }
}

/// The average price at which what is owed was sold, taken from the trades in
/// the order of their times.
pub fn margin_short_entry_price(trades: &Json, current_debt: Double) -> (r: Option<Double>)
    ensures
        if trades.is_list() {
            exists|order: Seq<usize>| #[trigger]
                is_stable_order(order, times(trades.elements())) && r == entry_price_of(
                    traded_all(trades.elements(), order),
                    current_debt,
                )
        } else {
            r is None
        },
{
    let zero = Double { bits: ZERO };
    let rows = match trades.as_array() {
        Some(rows) => rows,
        None => return None,
    };
    let mut keys: Vec<i128> = Vec::new();
    let mut i: usize = 0;
    while i < rows.len()
        invariant
            i <= rows@.len(),
            keys@.len() == i,
            forall|k: int| 0 <= k < i ==> #[trigger] keys@[k] == times(rows@)[k],
        decreases rows@.len() - i,
    {
        let key: i128 = match rows[i].get("time").as_i64() {
            Some(t) => t as i128,
            None => 0,
        };
        keys.push(key);
        i = i + 1;
    }
    proof {
        assert(keys@ =~= times(rows@));
    }
    let order = stable_order(&keys);
    let mut book = ShortBook { quantity: zero, proceeds: zero };
    let mut k: usize = 0;
    proof {
        assert(order@.take(0) =~= Seq::<usize>::empty());
    }
    while k < order.len()
        invariant
            k <= order@.len(),
            zero == (Double { bits: ZERO }),
            is_stable_order(order@, times(rows@)),
            book == traded_all(rows@, order@.take(k as int)),
        decreases order@.len() - k,
    {
        proof {
            assert(order@.take(k as int + 1).drop_last() =~= order@.take(k as int));
        }
        let trade = &rows[order[k]];
        let quantity = number_or(trade.get("qty"), zero);
        let buyer: bool = match trade.get("isBuyer").as_bool() {
            Some(b) => b,
            None => false,
        };
        if buyer {
            if book.quantity.gt(zero) {
                let reduced = quantity.min(book.quantity);
                let average = book.proceeds.div(book.quantity);
                book = ShortBook {
                    quantity: book.quantity.sub(reduced),
                    proceeds: book.proceeds.sub(reduced.mul(average)).max(zero),
                };
            }
        } else {
            let quote = match number(trade.get("quoteQty")) {
                Some(x) => x,
                None => quantity.mul(number_or(trade.get("price"), zero)),
            };
            book = ShortBook {
                quantity: book.quantity.add(quantity),
                proceeds: book.proceeds.add(quote),
            };
        }
        k = k + 1;
    }
    proof {
        assert(order@.take(order@.len() as int) =~= order@);
        assert(is_stable_order(order@, times(trades.elements())));
    }
    if book.quantity.le(zero) || current_debt.le(zero) {
        None
    } else {
        Some(book.proceeds.div(book.quantity))
    }
}

/// Whether a leg is the one that is owed.
pub open spec fn is_margin_leg(
    leg: PositionLeg,
    symbol: Seq<char>,
    debt: Debt,
    entry_price: Double,
    mark_price: Double,
) -> bool {
    &&& leg.exchange@ == "Binance"@
    &&& leg.market@ == "spot"@
    &&& leg.symbol@ == symbol
    &&& leg.side@ == "short"@
    &&& leg.quantity == debt.total
    &&& leg.entry_price == entry_price
    &&& leg.mark_price == mark_price
    &&& leg.unrealized_pnl == entry_price.sub_spec(mark_price).mul_spec(debt.total)
    &&& leg.funding_earned == debt.interest.neg_spec().mul_spec(mark_price)
    &&& leg.funding_rate == (Double { bits: ZERO })
    &&& leg.leverage == 1
}

fn margin_leg(symbol: &str, debt: Debt, entry_price: Double, mark_price: Double) -> (leg: PositionLeg)
    ensures
        is_margin_leg(leg, symbol@, debt, entry_price, mark_price),
{
    PositionLeg {
        exchange: "Binance".to_owned(),
        market: "spot".to_owned(),
        symbol: symbol.to_owned(),
        side: "short".to_owned(),
        quantity: debt.total,
        entry_price,
        mark_price,
        unrealized_pnl: entry_price.sub(mark_price).mul(debt.total),
        funding_earned: debt.interest.neg().mul(mark_price),
        funding_rate: Double { bits: ZERO },
        leverage: 1,
    }
}

/// A price, or what stands in for it.
pub open spec fn price_or(price: Option<Double>, other: Double) -> Double {
    match price {
        Some(x) => x,
        None => other,
    }
}

/// The price that a market is valued at: its mark, or the middle of its quotes.
pub open spec fn mark_of(leg: Leg) -> Double {
    if (Double { bits: ZERO }).lt_spec(leg.mark) {
        leg.mark
    } else {
        leg.bid.add_spec(leg.ask).div_spec(Double { bits: TWO })
    }
}

/// The leg that is owed in the market of a leg, given the price that its trades
/// tell.
pub fn binance_margin_short_position(leg: &Leg, debt: Debt, entry_price: Option<Double>) -> (r: PositionLeg)
    ensures
        is_margin_leg(r, leg.symbol@, debt, price_or(entry_price, leg.mark), mark_of(*leg)),
{
    let entry = match entry_price {
        Some(x) => x,
        None => leg.mark,
    };
    let mark = if leg.mark.gt(Double { bits: ZERO }) {
        leg.mark
    } else {
        leg.bid.add(leg.ask).div(Double { bits: TWO })
    };
    margin_leg(leg.symbol.as_str(), debt, entry, mark)
}

/// The best prices that a line of the book gives for a symbol.
pub open spec fn quotes_of(item: Json, symbol: Seq<char>) -> Option<(Double, Double)> {
    match (item.member("bidPrice"@).amount(), item.member("askPrice"@).amount()) {
        (Some(bid), Some(ask)) => if item.member("symbol"@).is_text(symbol) {
            Some((bid, ask))
        } else {
            None
        },
        _ => None,
    }
}

/// The best prices of a symbol: those of the last line of the book about it.
pub open spec fn book_quote(items: Seq<Json>, symbol: Seq<char>) -> Option<(Double, Double)>
    decreases items.len(),
{
    if items.len() == 0 {
        None
    } else {
        match quotes_of(items.last(), symbol) {
            Some(q) => Some(q),
            None => book_quote(items.drop_last(), symbol),
        }
    }
}

fn find_book_quote(books: &Json, symbol: &str) -> (r: Option<(Double, Double)>)
    ensures
        r == book_quote(books.elements(), symbol@),
{
    let items = match books.as_array() {
        Some(items) => items,
        None => return None,
    };
    let mut n: usize = items.len();
    proof {
        assert(items@.take(n as int) =~= items@);
    }
    while n > 0
        invariant
            n <= items@.len(),
            items@ == books.elements(),
            book_quote(items@, symbol@) == book_quote(items@.take(n as int), symbol@),
        decreases n,
    {
        proof {
            assert(items@.take(n as int).last() == items@[n - 1]);
            assert(items@.take(n as int).drop_last() =~= items@.take(n - 1));
        }
        let item = &items[n - 1];
        if item.get("symbol").equals_text(symbol) {
            if let Some(bid) = number(item.get("bidPrice")) {
                if let Some(ask) = number(item.get("askPrice")) {
                    return Some((bid, ask));
                }
            }
        }
        n = n - 1;
    }
    None
}

/// A managed symbol of which something is owed.
#[derive(Debug)]
pub struct OwedSymbol {
    pub symbol: String,
    pub debt: Debt,
    pub mark_price: Double,
}

/// Whether something is owed of a managed symbol, and it has a price.
pub open spec fn owes(account: Json, books: Json, symbol: Seq<char>) -> bool {
    let line = asset_line(account.member("userAssets"@).elements(), without_suffixes(symbol, "USDT"@));
    &&& line is Some
    &&& !debt_of(line->0).total.le_spec(Double { bits: ZERO })
    &&& book_quote(books.elements(), symbol) is Some
}

/// Whether this is what is owed of a managed symbol.
pub open spec fn is_owed(owed: OwedSymbol, account: Json, books: Json, symbol: String) -> bool {
    let line = asset_line(account.member("userAssets"@).elements(), without_suffixes(symbol@, "USDT"@));
    let quote = book_quote(books.elements(), symbol@)->0;
    &&& owed.symbol == symbol
    &&& owed.debt == debt_of(line->0)
    &&& owed.mark_price == quote.0.add_spec(quote.1).div_spec(Double { bits: TWO })
}

/// Whether this is what is owed of the managed symbols, in their order.
pub open spec fn are_owed(list: Seq<OwedSymbol>, account: Json, books: Json, managed: Seq<String>) -> bool
    decreases managed.len(),
{
    if managed.len() == 0 {
        list.len() == 0
    } else if owes(account, books, managed.last()@) {
        list.len() > 0 && is_owed(list.last(), account, books, managed.last()) && are_owed(
            list.drop_last(),
            account,
            books,
            managed.drop_last(),
        )
    } else {
        are_owed(list, account, books, managed.drop_last())
    }
}

fn owed_of(account: &Json, books: &Json, symbol: &String) -> (r: Option<OwedSymbol>)
    ensures
        match r {
            Some(owed) => owes(*account, *books, symbol@) && is_owed(owed, *account, *books, *symbol),
            None => !owes(*account, *books, symbol@),
        },
{
    let item = match find_asset(account, base_of_symbol(symbol.as_str()).as_str()) {
        Some(item) => item,
        None => return None,
    };
    let debt = read_debt(item);
    if debt.total.le(Double { bits: ZERO }) {
        return None;
    }
    match find_book_quote(books, symbol.as_str()) {
        Some(quote) => Some(
            OwedSymbol {
                symbol: symbol.clone(),
                debt,
                mark_price: quote.0.add(quote.1).div(Double { bits: TWO }),
            },
        ),
        None => None,
    }
}

/// What is owed of the managed symbols.
pub fn owed_symbols(account: &Json, books: &Json, managed: &Vec<String>) -> (list: Vec<OwedSymbol>)
    ensures
        are_owed(list@, *account, *books, managed@),
{
    let mut list: Vec<OwedSymbol> = Vec::new();
    let mut i: usize = 0;
    proof {
        assert(managed@.take(0) =~= Seq::<String>::empty());
    }
    while i < managed.len()
        invariant
            i <= managed@.len(),
            are_owed(list@, *account, *books, managed@.take(i as int)),
        decreases managed@.len() - i,
    {
        let ghost before = list@;
        proof {
            assert(managed@.take(i as int + 1).drop_last() =~= managed@.take(i as int));
            assert(managed@.take(i as int + 1).last() == managed@[i as int]);
        }
        if let Some(owed) = owed_of(account, books, &managed[i]) {
            list.push(owed);
            proof {
                assert(list@.drop_last() =~= before);
            }
        }
        i = i + 1;
    }
    proof {
        assert(managed@.take(managed@.len() as int) =~= managed@);
    }
    list
}

/// The leg that is owed of a managed symbol, given the price that its trades
/// tell.
pub fn owed_leg(owed: &OwedSymbol, entry_price: Option<Double>) -> (leg: PositionLeg)
    ensures
        is_margin_leg(
            leg,
            owed.symbol@,
            owed.debt,
            price_or(entry_price, owed.mark_price),
            owed.mark_price,
        ),
{
    let entry = match entry_price {
        Some(x) => x,
        None => owed.mark_price,
    };
    margin_leg(owed.symbol.as_str(), owed.debt, entry, owed.mark_price)
}

/// The first leg of a symbol and a side.
pub open spec fn sided(legs: Seq<PositionLeg>, symbol: Seq<char>, side: Seq<char>) -> Option<PositionLeg>
    decreases legs.len(),
{
    if legs.len() == 0 {
        None
    } else if legs[0].symbol@ == symbol && legs[0].side@ == side {
        Some(legs[0])
    } else {
        sided(legs.drop_first(), symbol, side)
    }
}

/// The first leg of a symbol and a side.
pub fn find_sided(legs: &Vec<PositionLeg>, symbol: &str, side: &str) -> (r: Option<PositionLeg>)
    ensures
        r == sided(legs@, symbol@, side@),
{
    let mut i: usize = 0;
    proof {
        assert(legs@.skip(0) =~= legs@);
    }
    while i < legs.len()
        invariant
            i <= legs@.len(),
            sided(legs@, symbol@, side@) == sided(legs@.skip(i as int), symbol@, side@),
        decreases legs@.len() - i,
    {
        proof {
            assert(legs@.skip(i as int)[0] == legs@[i as int]);
            assert(legs@.skip(i as int).drop_first() =~= legs@.skip(i as int + 1));
        }
        if same(legs[i].symbol.as_str(), symbol) && same(legs[i].side.as_str(), side) {
            return Some(legs[i].clone());
        }
        i = i + 1;
    }
    None
}

/// Where a leg is looked for.
#[derive(Clone, Copy, Debug, PartialEq, Eq, Structural)]
pub enum LegSource {
    /// Nowhere: nothing is ever held long on margin.
    Nowhere,
    /// In the margin account of Binance.
    Margin,
    /// Among the positions of Binance.
    Binance,
    /// Among the positions of Bybit.
    Bybit,
}

/// Where a leg is looked for.
pub fn leg_source(leg: &Leg, side: &str) -> (r: Result<LegSource, Failure>)
    ensures
        if leg.exchange@ == "Binance"@ && leg.market@ == "spot"@ {
            r == Ok::<LegSource, Failure>(
                if side@ == "short"@ {
                    LegSource::Margin
                } else {
                    LegSource::Nowhere
                },
            )
        } else if leg.exchange@ == "Binance"@ {
            r == Ok::<LegSource, Failure>(LegSource::Binance)
        } else if leg.exchange@ == "Bybit"@ {
            r == Ok::<LegSource, Failure>(LegSource::Bybit)
        } else {
            &&& r matches Err(f)
            &&& f.cause is None
            &&& f.reason matches Reason::UnsupportedExchange { exchange }
            &&& exchange@ == leg.exchange@
        },
{
    if same(leg.exchange.as_str(), "Binance") {
        if same(leg.market.as_str(), "spot") {
            if same(side, "short") {
                return Ok(LegSource::Margin);
            }
            return Ok(LegSource::Nowhere);
        }
        return Ok(LegSource::Binance);
    }
    if same(leg.exchange.as_str(), "Bybit") {
        return Ok(LegSource::Bybit);
    }
    Err(Failure::new(Reason::UnsupportedExchange { exchange: leg.exchange.clone() }))
}

} // verus!
