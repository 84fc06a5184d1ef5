//! Sending an order once and finding out what became of it.

use crate::failure::{Failure, Reason};
use crate::json::{number, number_or, render, rendered, Json};
use crate::models::OrderExecution;
use crate::num::constants::ZERO;
use crate::num::Double;
use crate::signing::{encode_object, json_object_text, members, Field, FieldView};
use crate::text::{chars_of, decimal, digits, digits_text, int_text, join, same, text_of};
use crate::trading::amounts::{format_price, format_qty, quantity_text};
use vstd::prelude::*;
use vstd::string::StringExecFns;

verus! {

/// Where an order goes.
#[derive(Clone, Copy, Debug, PartialEq, Eq, Structural)]
pub enum Venue {
    BinanceFutures,
    BinanceMargin,
    BybitLinear,
}

/// The venue of a market; none where it is not traded.
pub open spec fn venue(exchange: Seq<char>, market: Seq<char>) -> Option<Venue> {
    if exchange == "Binance"@ && market == "perpetual"@ {
        Some(Venue::BinanceFutures)
    } else if exchange == "Binance"@ && market == "spot"@ {
        Some(Venue::BinanceMargin)
    } else if exchange == "Bybit"@ && market == "perpetual"@ {
        Some(Venue::BybitLinear)
    } else {
        None
    }
}

pub fn venue_of(exchange: &str, market: &str) -> (v: Result<Venue, Failure>)
    ensures
        match venue(exchange@, market@) {
            Some(x) => v matches Ok(y) && x == y,
            None => {
                &&& v matches Err(f)
                &&& f.cause is None
                &&& f.reason matches Reason::UnsupportedMarket { exchange: e, market: m }
                &&& e@ == exchange@
                &&& m@ == market@
            },
        },
{
    if same(exchange, "Binance") && same(market, "perpetual") {
        Ok(Venue::BinanceFutures)
    } else if same(exchange, "Binance") && same(market, "spot") {
        Ok(Venue::BinanceMargin)
    } else if same(exchange, "Bybit") && same(market, "perpetual") {
        Ok(Venue::BybitLinear)
    } else {
        Err(
            Failure::new(
                Reason::UnsupportedMarket { exchange: exchange.to_owned(), market: market.to_owned() },
            ),
        )
    }
}

/// The side of an order as Binance spells it.
pub open spec fn binance_side(side: Seq<char>) -> Seq<char> {
    if side == "Buy"@ {
        "BUY"@
    } else {
        "SELL"@
    }
}

pub fn side_for_binance(side: &str) -> (s: String)
    ensures
        s@ == binance_side(side@),
{
    if same(side, "Buy") {
        "BUY".to_owned()
    } else {
        "SELL".to_owned()
    }
}

/// Whether an order acts on the long side: it opens it or it reduces it.
pub open spec fn acts_on_long(buys: bool, reduce_only: bool) -> bool {
    buys != reduce_only
}

/// The type of an order.
pub open spec fn type_params(limit_price: Option<Double>) -> Seq<char> {
    match limit_price {
        None => "type=MARKET"@,
        Some(price) => "type=LIMIT&timeInForce=IOC&price="@ + quantity_text(price),
    }
}

fn type_text(limit_price: Option<Double>) -> (s: String)
    ensures
        s@ == type_params(limit_price),
{
    match limit_price {
        None => "type=MARKET".to_owned(),
        Some(price) => join("type=LIMIT&timeInForce=IOC&price=", format_price(price).as_str()),
    }
}

/// The position mode of an order: the side in hedge mode, and whether it only
/// reduces in one-way mode.
pub open spec fn mode_params(hedge_mode: bool, buys: bool, reduce_only: bool) -> Seq<char> {
    if hedge_mode {
        "&positionSide="@ + (if acts_on_long(buys, reduce_only) {
            "LONG"@
        } else {
            "SHORT"@
        })
    } else {
        "&reduceOnly="@ + (if reduce_only {
            "true"@
        } else {
            "false"@
        })
    }
}

fn mode_text(hedge_mode: bool, buys: bool, reduce_only: bool) -> (s: String)
    ensures
        s@ == mode_params(hedge_mode, buys, reduce_only),
{
    if hedge_mode {
        join(
            "&positionSide=",
            if buys != reduce_only {
                "LONG"
            } else {
                "SHORT"
            },
        )
    } else {
        join(
            "&reduceOnly=",
            if reduce_only {
                "true"
            } else {
                "false"
            },
        )
    }
}

/// The query of a futures order.
pub open spec fn futures_query(
    symbol: Seq<char>,
    side: Seq<char>,
    quantity: Double,
    reduce_only: bool,
    client_order_id: Seq<char>,
    limit_price: Option<Double>,
    hedge_mode: bool,
    now: i64,
) -> Seq<char> {
    "symbol="@ + symbol + "&side="@ + side + "&"@ + type_params(limit_price) + "&quantity="@
        + quantity_text(quantity) + "&newClientOrderId="@ + client_order_id + "&newOrderRespType=RESULT"@
        + mode_params(hedge_mode, side == "BUY"@, reduce_only) + "&timestamp="@ + decimal(now as int)
}

pub fn futures_order_query(
    symbol: &str,
    side: &str,
    quantity: Double,
    reduce_only: bool,
    client_order_id: &str,
    limit_price: Option<Double>,
    hedge_mode: bool,
    now: i64,
) -> (query: String)
    ensures
        query@ == futures_query(
            symbol@,
            side@,
            quantity,
            reduce_only,
            client_order_id@,
            limit_price,
            hedge_mode,
            now,
        ),
{
    let mut q = "symbol=".to_owned();
    q.append(symbol);
    q.append("&side=");
    q.append(side);
    q.append("&");
    q.append(type_text(limit_price).as_str());
    q.append("&quantity=");
    q.append(format_qty(quantity).as_str());
    q.append("&newClientOrderId=");
    q.append(client_order_id);
    q.append("&newOrderRespType=RESULT");
    q.append(mode_text(hedge_mode, same(side, "BUY"), reduce_only).as_str());
    q.append("&timestamp=");
    q.append(int_text(now).as_str());
    q
}

/// The query of a margin order.
pub open spec fn margin_query(
    symbol: Seq<char>,
    side: Seq<char>,
    quantity: Double,
    reduce_only: bool,
    client_order_id: Seq<char>,
    limit_price: Option<Double>,
    now: i64,
) -> Seq<char> {
    "symbol="@ + symbol + "&isIsolated=FALSE&side="@ + side + "&"@ + type_params(limit_price)
        + "&quantity="@ + quantity_text(quantity) + "&sideEffectType="@ + (if reduce_only {
        "AUTO_REPAY"@
    } else {
        "AUTO_BORROW_REPAY"@
    }) + "&newClientOrderId="@ + client_order_id + "&newOrderRespType=FULL&timestamp="@ + decimal(
        now as int,
    )
}

/// The query of a margin order. Margin is only sold short and bought back.
pub fn margin_order_query(
    symbol: &str,
    side: &str,
    quantity: Double,
    reduce_only: bool,
    client_order_id: &str,
    limit_price: Option<Double>,
    now: i64,
) -> (r: Result<String, Failure>)
    ensures
        ({
            let allowed = if reduce_only {
                side@ == "BUY"@
            } else {
                side@ == "SELL"@
            };
            if allowed {
                r matches Ok(query) && query@ == margin_query(
                    symbol@,
                    side@,
                    quantity,
                    reduce_only,
                    client_order_id@,
                    limit_price,
                    now,
                )
            } else {
                r matches Err(f) && f == (Failure { reason: Reason::MarginRoute, cause: None })
            }
        }),
{
    let allowed: bool = if reduce_only {
        same(side, "BUY")
    } else {
        same(side, "SELL")
    };
    if !allowed {
        return Err(Failure::new(Reason::MarginRoute));
    }
    let mut q = "symbol=".to_owned();
    q.append(symbol);
    q.append("&isIsolated=FALSE&side=");
    q.append(side);
    q.append("&");
    q.append(type_text(limit_price).as_str());
    q.append("&quantity=");
    q.append(format_qty(quantity).as_str());
    q.append("&sideEffectType=");
    q.append(
        if reduce_only {
            "AUTO_REPAY"
        } else {
            "AUTO_BORROW_REPAY"
        },
    );
    q.append("&newClientOrderId=");
    q.append(client_order_id);
    q.append("&newOrderRespType=FULL&timestamp=");
    q.append(int_text(now).as_str());
    Ok(q)
}

/// The query by which a sent order is looked up.
pub fn futures_status_query(symbol: &str, client_order_id: &str, now: i64) -> (query: String)
    ensures
        query@ == "symbol="@ + symbol@ + "&origClientOrderId="@ + client_order_id@ + "&timestamp="@ + decimal(
            now as int,
        ),
{
    let mut q = "symbol=".to_owned();
    q.append(symbol);
    q.append("&origClientOrderId=");
    q.append(client_order_id);
    q.append("&timestamp=");
    q.append(int_text(now).as_str());
    q
}

/// The query by which a sent margin order is looked up.
pub fn margin_status_query(symbol: &str, client_order_id: &str, now: i64) -> (query: String)
    ensures
        query@ == "symbol="@ + symbol@ + "&isIsolated=FALSE&origClientOrderId="@ + client_order_id@
            + "&timestamp="@ + decimal(now as int),
{
    let mut q = "symbol=".to_owned();
    q.append(symbol);
    q.append("&isIsolated=FALSE&origClientOrderId=");
    q.append(client_order_id);
    q.append("&timestamp=");
    q.append(int_text(now).as_str());
    q
}

/// The path by which a sent order is looked up at Bybit.
pub fn linear_status_path(symbol: &str, client_order_id: &str) -> (path: String)
    ensures
        path@ == "/v5/order/realtime?category=linear&symbol="@ + symbol@ + "&orderLinkId="@ + client_order_id@,
{
    let mut q = "/v5/order/realtime?category=linear&symbol=".to_owned();
    q.append(symbol);
    q.append("&orderLinkId=");
    q.append(client_order_id);
    q
}

/// The members of a Bybit order.
pub open spec fn linear_members(
    symbol: Seq<char>,
    side: Seq<char>,
    quantity: Double,
    reduce_only: bool,
    client_order_id: Seq<char>,
    position_index: i64,
    limit_price: Option<Double>,
) -> Seq<(Seq<char>, FieldView)> {
    let base = seq![
        ("category"@, FieldView::Text("linear"@)),
        ("symbol"@, FieldView::Text(symbol)),
        ("side"@, FieldView::Text(side)),
        (
            "orderType"@,
            FieldView::Text(
                if limit_price is Some {
                    "Limit"@
                } else {
                    "Market"@
                },
            ),
        ),
        ("qty"@, FieldView::Text(quantity_text(quantity))),
        ("reduceOnly"@, FieldView::Flag(reduce_only)),
        ("orderLinkId"@, FieldView::Text(client_order_id)),
        ("positionIdx"@, FieldView::Int(position_index)),
    ];
    match limit_price {
        Some(price) => base + seq![
            ("price"@, FieldView::Text(quantity_text(price))),
            ("timeInForce"@, FieldView::Text("IOC"@)),
        ],
        None => base,
    }
}

fn text_member(key: &str, text: String) -> (m: (String, Field))
    ensures
        (m.0@, m.1@) == (key@, FieldView::Text(text@)),
{
    (key.to_owned(), Field::Text(text))
}

/// The body of a Bybit order.
pub fn linear_order_body(
    symbol: &str,
    side: &str,
    quantity: Double,
    reduce_only: bool,
    client_order_id: &str,
    position_index: i64,
    limit_price: Option<Double>,
) -> (body: String)
    ensures
        body@ == json_object_text(
            linear_members(
                symbol@,
                side@,
                quantity,
                reduce_only,
                client_order_id@,
                position_index,
                limit_price,
            ),
        ),
{
    let mut fields: Vec<(String, Field)> = Vec::new();
    fields.push(text_member("category", "linear".to_owned()));
    fields.push(text_member("symbol", symbol.to_owned()));
    fields.push(text_member("side", side.to_owned()));
    let kind = if limit_price.is_some() {
        "Limit".to_owned()
    } else {
        "Market".to_owned()
    };
    fields.push(text_member("orderType", kind));
    fields.push(text_member("qty", format_qty(quantity)));
    fields.push(("reduceOnly".to_owned(), Field::Flag(reduce_only)));
    fields.push(text_member("orderLinkId", client_order_id.to_owned()));
    fields.push(("positionIdx".to_owned(), Field::Int(position_index)));
    if let Some(price) = limit_price {
        fields.push(text_member("price", format_price(price)));
        fields.push(text_member("timeInForce", "IOC".to_owned()));
    }
    proof {
        assert(members(fields@) =~= linear_members(
            symbol@,
            side@,
            quantity,
            reduce_only,
            client_order_id@,
            position_index,
            limit_price,
        ));
    }
    encode_object(fields)
}

/// Whether a Bybit answer reports success.
pub open spec fn accepted(response: Json) -> bool {
    response.member("retCode"@).integer() == Some(0i64)
}

pub fn is_accepted(response: &Json) -> (b: bool)
    ensures
        b == accepted(*response),
{
    match response.get("retCode").as_i64() {
        Some(code) => code == 0,
        None => false,
    }
}

/// Whether a position of Bybit has an index.
pub open spec fn is_indexed(item: Json) -> bool {
    match item.member("positionIdx"@).integer() {
        Some(k) => k > 0,
        None => false,
    }
}

/// Whether Bybit holds positions in hedge mode: some position has an index.
pub open spec fn indexed(items: Seq<Json>) -> bool {
    exists|i: int| 0 <= i < items.len() && #[trigger] is_indexed(items[i])
}

fn has_index(items: &Vec<Json>) -> (b: bool)
    ensures
        b == indexed(items@),
{
    let mut i: usize = 0;
    while i < items.len()
        invariant
            i <= items@.len(),
            forall|j: int| 0 <= j < i ==> !#[trigger] is_indexed(items@[j]),
        decreases items@.len() - i,
    {
        if let Some(k) = items[i].get("positionIdx").as_i64() {
            if k > 0 {
                proof {
                    assert(is_indexed(items@[i as int]));
                }
                return true;
            }
        }
        i = i + 1;
    }
    false
}

/// The position index of an order: none in one-way mode, one for the long and
/// two for the short side in hedge mode.
pub open spec fn position_index(hedge_mode: bool, buys: bool, reduce_only: bool) -> i64 {
    if !hedge_mode {
        0
    } else if acts_on_long(buys, reduce_only) {
        1
    } else {
        2
    }
}

/// Reads the position mode out of Bybit's list of positions.
pub fn bybit_position_idx(response: &Json, side: &str, reduce_only: bool) -> (r: Result<i64, Failure>)
    ensures
        if accepted(*response) {
            r == Ok::<i64, Failure>(
                position_index(
                    indexed(response.member("result"@).member("list"@).elements()),
                    side@ == "Buy"@,
                    reduce_only,
                ),
            )
        } else {
            &&& r matches Err(f)
            &&& f.cause is None
            &&& f.reason matches Reason::BybitModeFailed { message }
            &&& message@ == rendered(response.member("retMsg"@))
        },
{
    if !is_accepted(response) {
        return Err(
            Failure::new(Reason::BybitModeFailed { message: render(response.get("retMsg")) }),
        );
    }
    let hedge_mode: bool = match response.get("result").get("list").as_array() {
        Some(items) => has_index(items),
        None => false,
    };
    if !hedge_mode {
        return Ok(0);
    }
    if same(side, "Buy") != reduce_only {
        Ok(1)
    } else {
        Ok(2)
    }
}

/// The fill that an answer of Binance futures reports.
pub open spec fn futures_fill(response: Json) -> (Seq<char>, Double, Double) {
    let zero = Double { bits: ZERO };
    let quantity = match response.member("executedQty"@).amount() {
        Some(q) => q,
        None => match response.member("cumQty"@).amount() {
            Some(q) => q,
            None => zero,
        },
    };
    let price = match response.member("avgPrice"@).amount() {
        Some(p) if zero.lt_spec(p) => p,
        _ => match response.member("cumQuote"@).amount() {
            Some(quote) if zero.lt_spec(quantity) => quote.div_spec(quantity),
            _ => zero,
        },
    };
    (
        match response.member("status"@).string() {
            Some(s) => s,
            None => "UNKNOWN"@,
        },
        quantity,
        price,
    )
}

fn status_text(response: &Json) -> (s: String)
    ensures
        s@ == (match response.member("status"@).string() {
            Some(t) => t,
            None => "UNKNOWN"@,
        }),
{
    match response.get("status").as_str() {
        Some(t) => t.to_owned(),
        None => "UNKNOWN".to_owned(),
    }
}

/// Reads the fill of a futures order: the average price is worked out from the
/// cumulative quote where it is missing.
pub fn binance_fill(response: &Json) -> (fill: (String, Double, Double))
    ensures
        (fill.0@, fill.1, fill.2) == futures_fill(*response),
{
    let zero = Double { bits: ZERO };
    let quantity = match number(response.get("executedQty")) {
        Some(q) => q,
        None => number_or(response.get("cumQty"), zero),
    };
    let reported = match number(response.get("avgPrice")) {
        Some(p) => if p.gt(zero) {
            Some(p)
        } else {
            None
        },
        None => None,
    };
    let price = match reported {
        Some(p) => p,
        None => match number(response.get("cumQuote")) {
            Some(quote) => if quantity.gt(zero) {
                quote.div(quantity)
            } else {
                zero
            },
            None => zero,
        },
    };
    (status_text(response), quantity, price)
}

/// The quote and the quantity of a list of fills.
pub open spec fn fills_total(fills: Seq<Json>) -> (Double, Double)
    decreases fills.len(),
{
    let zero = Double { bits: ZERO };
    if fills.len() == 0 {
        (zero, zero)
    } else {
        let before = fills_total(fills.drop_last());
        let quantity = match fills.last().member("qty"@).amount() {
            Some(q) => q,
            None => zero,
        };
        let price = match fills.last().member("price"@).amount() {
            Some(p) => p,
            None => zero,
        };
        (before.0.add_spec(quantity.mul_spec(price)), before.1.add_spec(quantity))
    }
}

fn total_of_fills(fills: &Vec<Json>) -> (total: (Double, Double))
    ensures
        total == fills_total(fills@),
{
    let zero = Double { bits: ZERO };
    let mut quote = zero;
    let mut quantity = zero;
    let mut i: usize = 0;
    proof {
        assert(fills@.take(0) =~= Seq::<Json>::empty());
    }
    while i < fills.len()
        invariant
            i <= fills@.len(),
            zero == (Double { bits: ZERO }),
            (quote, quantity) == fills_total(fills@.take(i as int)),
        decreases fills@.len() - i,
    {
        proof {
            assert(fills@.take(i as int + 1).drop_last() =~= fills@.take(i as int));
        }
        let q = number_or(fills[i].get("qty"), zero);
        let p = number_or(fills[i].get("price"), zero);
        quote = quote.add(q.mul(p));
        quantity = quantity.add(q);
        i = i + 1;
    }
    proof {
        assert(fills@.take(fills@.len() as int) =~= fills@);
    }
    (quote, quantity)
}

/// The fill that an answer of Binance margin reports.
pub open spec fn margin_fill(response: Json) -> (Seq<char>, Double, Double) {
    let zero = Double { bits: ZERO };
    let quantity = match response.member("executedQty"@).amount() {
        Some(q) => q,
        None => zero,
    };
    let totals = fills_total(response.member("fills"@).elements());
    let price = match response.member("cummulativeQuoteQty"@).amount() {
        Some(quote) if zero.lt_spec(quote) && zero.lt_spec(quantity) => quote.div_spec(quantity),
        _ => if response.member("fills"@).is_list() && zero.lt_spec(totals.1) {
            totals.0.div_spec(totals.1)
        } else {
            zero
        },
    };
    (
        match response.member("status"@).string() {
            Some(s) => s,
            None => "UNKNOWN"@,
        },
        quantity,
        price,
    )
}

/// Reads the fill of a margin order: the average price is worked out from the
/// cumulative quote, or from the single fills.
pub fn binance_spot_fill(response: &Json) -> (fill: (String, Double, Double))
    ensures
        (fill.0@, fill.1, fill.2) == margin_fill(*response),
{
    let zero = Double { bits: ZERO };
    let quantity = number_or(response.get("executedQty"), zero);
    let from_quote = match number(response.get("cummulativeQuoteQty")) {
        Some(quote) => if quote.gt(zero) && quantity.gt(zero) {
            Some(quote.div(quantity))
        } else {
            None
        },
        None => None,
    };
    let price = match from_quote {
        Some(p) => p,
        None => match response.get("fills").as_array() {
            Some(fills) => {
                let (quote, total) = total_of_fills(fills);
                if total.gt(zero) {
                    quote.div(total)
                } else {
                    zero
                }
            },
            None => zero,
        },
    };
    (status_text(response), quantity, price)
}

/// Whether a fill is known: a quantity at a price.
pub open spec fn known(quantity: Double, price: Double) -> bool {
    !quantity.le_spec(Double { bits: ZERO }) && !price.le_spec(Double { bits: ZERO })
}

/// Whether an order that ended was filled.
pub open spec fn has_fill(order: OrderExecution) -> bool {
    (Double { bits: ZERO }).lt_spec(order.executed_quantity) && (Double { bits: ZERO }).lt_spec(
        order.average_price,
    )
}

/// Whether an order ended before it was filled in full.
pub open spec fn cut_short(status: Seq<char>) -> bool {
    status == "CANCELED"@ || status == "EXPIRED"@ || status == "Cancelled"@ || status == "Canceled"@
}

/// The status that an order with a fill is shown with.
pub open spec fn shown_status(status: Seq<char>) -> Seq<char> {
    if cut_short(status) {
        "PartiallyFilled"@
    } else {
        status
    }
}

/// The verdict on an order that ended: it counts where it was filled at all.
pub open spec fn confirms(r: Result<OrderExecution, Failure>, order: OrderExecution) -> bool {
    if has_fill(order) {
        &&& r matches Ok(o)
        &&& o == (OrderExecution { status: o.status, ..order })
        &&& o.status@ == shown_status(order.status@)
    } else {
        &&& r matches Err(f)
        &&& f.cause is None
        &&& f.reason matches Reason::OrderEnded { exchange, status, client_order_id }
        &&& exchange@ == order.exchange@
        &&& status@ == order.status@
        &&& client_order_id@ == order.client_order_id@
    }
}

pub fn confirmed_order_or_error(order: OrderExecution) -> (r: Result<OrderExecution, Failure>)
    ensures
        confirms(r, order),
{
    let zero = Double { bits: ZERO };
    if order.executed_quantity.gt(zero) && order.average_price.gt(zero) {
        let ended = same(order.status.as_str(), "CANCELED") || same(order.status.as_str(), "EXPIRED") || same(
            order.status.as_str(),
            "Cancelled",
        ) || same(order.status.as_str(), "Canceled");
        if ended {
            return Ok(
                OrderExecution {
                    exchange: order.exchange,
                    client_order_id: order.client_order_id,
                    order_id: order.order_id,
                    status: "PartiallyFilled".to_owned(),
                    executed_quantity: order.executed_quantity,
                    average_price: order.average_price,
                },
            );
        }
        return Ok(order);
    }
    Err(
        Failure::new(
            Reason::OrderEnded {
                exchange: order.exchange,
                status: order.status,
                client_order_id: order.client_order_id,
            },
        ),
    )
}

/// The verdict on a Bybit order at the market: it counts only where it is
/// reported as filled. What was filled of any other is named in the error.
pub open spec fn confirms_in_full(r: Result<OrderExecution, Failure>, order: OrderExecution) -> bool {
    if has_fill(order) && order.status@ != "Filled"@ {
        &&& r matches Err(f)
        &&& f.cause is None
        &&& f.reason matches Reason::PartlyFilled {
            exchange,
            status,
            executed_quantity,
            average_price,
            client_order_id,
            order_id,
        }
        &&& order_id@ == order.order_id@
        &&& exchange@ == order.exchange@
        &&& status@ == order.status@
        &&& executed_quantity == order.executed_quantity
        &&& average_price == order.average_price
        &&& client_order_id@ == order.client_order_id@
    } else {
        confirms(r, order)
    }
}

/// The verdict on a Bybit order: one that is immediate-or-cancel counts by what
/// was filled of it, one at the market only in full.
pub open spec fn bybit_verdict(ioc: bool, r: Result<OrderExecution, Failure>, order: OrderExecution) -> bool {
    if ioc {
        confirms(r, order)
    } else {
        confirms_in_full(r, order)
    }
}

fn bybit_order_or_error(ioc: bool, order: OrderExecution) -> (r: Result<OrderExecution, Failure>)
    ensures
        bybit_verdict(ioc, r, order),
        !ioc ==> (r matches Ok(o) ==> o.status@ == "Filled"@),
{
    proof {
        reveal_strlit("Filled");
        reveal_strlit("CANCELED");
        reveal_strlit("EXPIRED");
        reveal_strlit("Cancelled");
        reveal_strlit("Canceled");
    }
    let zero = Double { bits: ZERO };
    let filled: bool = order.executed_quantity.gt(zero) && order.average_price.gt(zero);
    if !ioc && filled && !same(order.status.as_str(), "Filled") {
        return Err(
            Failure::new(
                Reason::PartlyFilled {
                    exchange: order.exchange,
                    status: order.status,
                    executed_quantity: order.executed_quantity,
                    average_price: order.average_price,
                    client_order_id: order.client_order_id,
                    order_id: order.order_id,
                },
            ),
        );
    }
    confirmed_order_or_error(order)
}

/// What is booked of an order that evens out the legs: an order that counts, or
/// what was filled of one that was cut short.
pub open spec fn is_booked(r: Option<OrderExecution>, outcome: Result<OrderExecution, Failure>) -> bool {
    match outcome {
        Ok(order) => r == Some(order),
        Err(failure) => match failure.reason {
            Reason::PartlyFilled {
                exchange,
                status,
                executed_quantity,
                average_price,
                client_order_id,
                order_id,
            } => {
                let order = OrderExecution {
                    exchange,
                    client_order_id,
                    order_id,
                    status,
                    executed_quantity,
                    average_price,
                };
                if has_fill(order) {
                    &&& r matches Some(b)
                    &&& b == (OrderExecution { status: b.status, ..order })
                    &&& b.status@ == shown_status(status@)
                } else {
                    r is None
                }
            },
            _ => r is None,
        },
    }
}

/// What is booked of an order that evens out the legs.
pub fn booked(outcome: Result<OrderExecution, Failure>) -> (r: Option<OrderExecution>)
    ensures
        is_booked(r, outcome),
{
    let failure = match outcome {
        Ok(order) => return Some(order),
        Err(failure) => failure,
    };
    match failure.reason {
        Reason::PartlyFilled {
            exchange,
            status,
            executed_quantity,
            average_price,
            client_order_id,
            order_id,
        } => {
            let order = OrderExecution {
                exchange,
                client_order_id,
                order_id,
                status,
                executed_quantity,
                average_price,
            };
            match confirmed_order_or_error(order) {
                Ok(order) => Some(order),
                Err(_) => None,
            }
        },
        _ => None,
    }
}

/// Whatever was filled of a Bybit order is booked, whether the order counts or
/// was cut short.
pub proof fn lemma_every_fill_is_booked(
    ioc: bool,
    outcome: Result<OrderExecution, Failure>,
    order: OrderExecution,
    r: Option<OrderExecution>,
)
    requires
        bybit_verdict(ioc, outcome, order),
        is_booked(r, outcome),
    ensures
        r is Some == has_fill(order),
        r matches Some(b) ==> b.exchange@ == order.exchange@ && b.executed_quantity == order.executed_quantity
            && b.average_price == order.average_price && b.order_id@ == order.order_id@ && b.client_order_id@
            == order.client_order_id@ && b.status@ == shown_status(order.status@),
{
}

/// The text without double quotes at its ends.
pub open spec fn unquoted(s: Seq<char>) -> Seq<char>
    decreases s.len(),
{
    if s.len() > 0 && s[0] == '"' {
        unquoted(s.drop_first())
    } else if s.len() > 0 && s.last() == '"' {
        unquoted(s.drop_last())
    } else {
        s
    }
}

fn trim_quotes(s: &str) -> (r: String)
    ensures
        r@ == unquoted(s@),
{
    let v = chars_of(s);
    let mut from: usize = 0;
    let mut to: usize = v.len();
    proof {
        assert(v@.subrange(0, to as int) =~= v@);
    }
    while from < to && (v[from] == '"' || v[to - 1] == '"')
        invariant
            from <= to <= v@.len(),
            unquoted(v@.subrange(from as int, to as int)) == unquoted(s@),
        decreases to - from,
    {
        proof {
            let now = v@.subrange(from as int, to as int);
            assert(now.drop_first() =~= v@.subrange(from as int + 1, to as int));
            assert(now.drop_last() =~= v@.subrange(from as int, to as int - 1));
            assert(now[0] == v@[from as int]);
            assert(now.last() == v@[to as int - 1]);
        }
        if v[from] == '"' {
            from = from + 1;
        } else {
            to = to - 1;
        }
    }
    proof {
        let now = v@.subrange(from as int, to as int);
        if from < to {
            assert(now[0] == v@[from as int]);
            assert(now.last() == v@[to as int - 1]);
        }
    }
    text_of(&v, from, to)
}

/// The order identifier that an answer of Binance reports.
pub open spec fn binance_order_id(response: Json) -> Seq<char> {
    unquoted(rendered(response.member("orderId"@)))
}

/// What to do next about a sent order. There is no step that sends it again.
pub enum OrderStep {
    /// Wait that long for the account stream to report the order.
    Await { millis: u64 },
    /// Wait that long, then look the order up.
    LookUp { after_millis: u64 },
    /// The order is settled.
    Finish(Result<OrderExecution, Failure>),
}

/// Whether an order that counts is the one that was sent, and was filled at a
/// price.
pub open spec fn counts_only_fills(step: OrderStep, client_order_id: Seq<char>) -> bool {
    step matches OrderStep::Finish(Ok(order)) ==> {
        &&& known(order.executed_quantity, order.average_price)
        &&& order.client_order_id@ == client_order_id
    }
}

/// How far a futures order has come.
pub enum FuturesStage {
    Submitted,
    /// The answer was lost: the stream is asked.
    Lost { submit_error: String },
    /// The answer was lost and the stream is silent: the order is looked up.
    Searched { submit_error: String },
    /// The answer held no fill: the stream is asked.
    Unfilled,
    /// The answer held no fill and the stream is silent: the order is looked up.
    Checked,
    Settled,
}

/// A futures order that was sent.
pub struct FuturesOrder {
    pub client_order_id: String,
    pub stage: FuturesStage,
}

/// The execution that an answer of Binance reports.
pub open spec fn is_execution(
    order: OrderExecution,
    exchange: Seq<char>,
    client_order_id: Seq<char>,
    order_id: Seq<char>,
    fill: (Seq<char>, Double, Double),
) -> bool {
    &&& order.exchange@ == exchange
    &&& order.client_order_id@ == client_order_id
    &&& order.order_id@ == order_id
    &&& order.status@ == fill.0
    &&& order.executed_quantity == fill.1
    &&& order.average_price == fill.2
}

impl FuturesOrder {
    pub fn new(client_order_id: String) -> (run: FuturesOrder)
        ensures
            run.client_order_id == client_order_id,
            run.stage is Submitted,
    {
        FuturesOrder { client_order_id, stage: FuturesStage::Submitted }
    }

    /// An answer with a fill settles the order.
    pub open spec fn reports(self, step: OrderStep, response: Json) -> bool {
        let fill = futures_fill(response);
        step matches OrderStep::Finish(Ok(order)) && is_execution(
            order,
            "Binance"@,
            self.client_order_id@,
            binance_order_id(response),
            fill,
        )
    }

    fn report(&self, response: &Json, fill: (String, Double, Double)) -> (step: OrderStep)
        requires
            (fill.0@, fill.1, fill.2) == futures_fill(*response),
        ensures
            self.reports(step, *response),
    {
        OrderStep::Finish(
            Ok(
                OrderExecution {
                    exchange: "Binance".to_owned(),
                    client_order_id: self.client_order_id.clone(),
                    order_id: trim_quotes(render(response.get("orderId")).as_str()),
                    status: fill.0,
                    executed_quantity: fill.1,
                    average_price: fill.2,
                },
            ),
        )
    }

    /// Takes in the answer to the order, or that there was none.
    pub fn on_submit(&mut self, answer: Result<Json, String>) -> (step: OrderStep)
        ensures
            counts_only_fills(step, old(self).client_order_id@),
            final(self).client_order_id == old(self).client_order_id,
            match answer {
                Ok(response) => {
                    let fill = futures_fill(response);
                    if known(fill.1, fill.2) {
                        final(self).stage is Settled && old(self).reports(step, response)
                    } else {
                        final(self).stage is Unfilled && step == (OrderStep::Await { millis: 2_000 })
                    }
                },
                Err(text) => {
                    &&& final(self).stage == (FuturesStage::Lost { submit_error: text })
                    &&& step == (OrderStep::Await { millis: 2_000 })
                },
            },
    {
        match answer {
            Ok(response) => {
                let fill = binance_fill(&response);
                let zero = Double { bits: ZERO };
                if fill.1.le(zero) || fill.2.le(zero) {
                    self.stage = FuturesStage::Unfilled;
                    OrderStep::Await { millis: 2_000 }
                } else {
                    self.stage = FuturesStage::Settled;
                    self.report(&response, fill)
                }
            },
            Err(text) => {
                self.stage = FuturesStage::Lost { submit_error: text };
                OrderStep::Await { millis: 2_000 }
            },
        }
    }

    /// Takes in what the account stream reported, or that it kept silent.
    pub fn on_stream(&mut self, reported: Option<OrderExecution>) -> (step: OrderStep)
        requires
            reported matches Some(order) ==> order.client_order_id@ == old(self).client_order_id@,
        ensures
            counts_only_fills(step, old(self).client_order_id@),
            final(self).client_order_id == old(self).client_order_id,
            match reported {
                Some(order) => {
                    &&& final(self).stage is Settled
                    &&& step matches OrderStep::Finish(r)
                    &&& confirms(r, order)
                },
                None => {
                    &&& step == (OrderStep::LookUp { after_millis: 0 })
                    &&& match old(self).stage {
                        FuturesStage::Lost { submit_error } => final(self).stage
                            == (FuturesStage::Searched { submit_error }),
                        _ => final(self).stage is Checked,
                    }
                },
            },
    {
        match reported {
            Some(order) => {
                self.stage = FuturesStage::Settled;
                OrderStep::Finish(confirmed_order_or_error(order))
            },
            None => {
                let next = match &self.stage {
                    FuturesStage::Lost { submit_error } => FuturesStage::Searched {
                        submit_error: submit_error.clone(),
                    },
                    _ => FuturesStage::Checked,
                };
                self.stage = next;
                OrderStep::LookUp { after_millis: 0 }
            },
        }
    }

    /// Takes in the answer to the look-up.
    pub fn on_lookup(&mut self, answer: Result<Json, String>) -> (step: OrderStep)
        ensures
            counts_only_fills(step, old(self).client_order_id@),
            final(self).client_order_id == old(self).client_order_id,
            match answer {
                Ok(response) => {
                    let fill = futures_fill(response);
                    if known(fill.1, fill.2) {
                        final(self).stage is Settled && old(self).reports(step, response)
                    } else if old(self).stage is Searched {
                        final(self).stage is Unfilled && step == (OrderStep::Await { millis: 2_000 })
                    } else {
                        &&& final(self).stage is Settled
                        &&& step matches OrderStep::Finish(Err(f))
                        &&& f.cause is None
                        &&& f.reason matches Reason::FillUnavailable { status, client_order_id }
                        &&& status@ == fill.0
                        &&& client_order_id@ == old(self).client_order_id@
                    }
                },
                Err(text) => {
                    &&& final(self).stage is Settled
                    &&& step matches OrderStep::Finish(Err(f))
                    &&& match old(self).stage {
                        FuturesStage::Searched { submit_error } => {
                            &&& f.cause == Some(text)
                            &&& f.reason matches Reason::SubmitUnknown { submit_error: e, client_order_id }
                            &&& e@ == submit_error@
                            &&& client_order_id@ == old(self).client_order_id@
                        },
                        _ => f == (Failure { reason: Reason::Outside { text }, cause: None }),
                    }
                },
            },
    {
        match answer {
            Ok(response) => {
                let fill = binance_fill(&response);
                let zero = Double { bits: ZERO };
                if !(fill.1.le(zero) || fill.2.le(zero)) {
                    self.stage = FuturesStage::Settled;
                    return self.report(&response, fill);
                }
                let searched: bool = matches!(self.stage, FuturesStage::Searched { .. });
                if searched {
                    self.stage = FuturesStage::Unfilled;
                    OrderStep::Await { millis: 2_000 }
                } else {
                    self.stage = FuturesStage::Settled;
                    OrderStep::Finish(
                        Err(
                            Failure::new(
                                Reason::FillUnavailable {
                                    status: fill.0,
                                    client_order_id: self.client_order_id.clone(),
                                },
                            ),
                        ),
                    )
                }
            },
            Err(text) => {
                let failure = match &self.stage {
                    FuturesStage::Searched { submit_error } => Failure::because(
                        Reason::SubmitUnknown {
                            submit_error: submit_error.clone(),
                            client_order_id: self.client_order_id.clone(),
                        },
                        text,
                    ),
                    _ => Failure::new(Reason::Outside { text }),
                };
                self.stage = FuturesStage::Settled;
                OrderStep::Finish(Err(failure))
            },
        }
    }
}

/// How far a margin order has come.
pub enum MarginStage {
    Submitted,
    /// The answer was lost: the order is looked up.
    Lost { submit_error: String },
    /// The answer held no fill: the order is looked up, for the n-th time.
    Polling { polls: u8 },
    Settled,
}

/// How often a margin order is looked up for its fill.
pub const MARGIN_POLLS: u8 = 8;

/// A margin order that was sent.
pub struct MarginOrder {
    pub client_order_id: String,
    pub stage: MarginStage,
}

impl MarginOrder {
    pub fn new(client_order_id: String) -> (run: MarginOrder)
        ensures
            run.client_order_id == client_order_id,
            run.stage is Submitted,
    {
        MarginOrder { client_order_id, stage: MarginStage::Submitted }
    }

    /// The verdict on the last answer: its fill, or that none is known.
    pub open spec fn settles(self, step: OrderStep, response: Json) -> bool {
        let fill = margin_fill(response);
        if known(fill.1, fill.2) {
            step matches OrderStep::Finish(Ok(order)) && is_execution(
                order,
                "Binance Spot Margin"@,
                self.client_order_id@,
                binance_order_id(response),
                fill,
            )
        } else {
            &&& step matches OrderStep::Finish(Err(f))
            &&& f.cause is None
            &&& f.reason matches Reason::MarginFillUnavailable { status, client_order_id }
            &&& status@ == fill.0
            &&& client_order_id@ == self.client_order_id@
        }
    }

    fn settle(&self, response: &Json, fill: (String, Double, Double)) -> (step: OrderStep)
        requires
            (fill.0@, fill.1, fill.2) == margin_fill(*response),
        ensures
            self.settles(step, *response),
    {
        let zero = Double { bits: ZERO };
        if fill.1.le(zero) || fill.2.le(zero) {
            return OrderStep::Finish(
                Err(
                    Failure::new(
                        Reason::MarginFillUnavailable {
                            status: fill.0,
                            client_order_id: self.client_order_id.clone(),
                        },
                    ),
                ),
            );
        }
        OrderStep::Finish(
            Ok(
                OrderExecution {
                    exchange: "Binance Spot Margin".to_owned(),
                    client_order_id: self.client_order_id.clone(),
                    order_id: trim_quotes(render(response.get("orderId")).as_str()),
                    status: fill.0,
                    executed_quantity: fill.1,
                    average_price: fill.2,
                },
            ),
        )
    }

    /// Takes in the answer to the order, or that there was none.
    pub fn on_submit(&mut self, answer: Result<Json, String>) -> (step: OrderStep)
        ensures
            counts_only_fills(step, old(self).client_order_id@),
            final(self).client_order_id == old(self).client_order_id,
            match answer {
                Ok(response) => {
                    let fill = margin_fill(response);
                    if known(fill.1, fill.2) {
                        final(self).stage is Settled && old(self).settles(step, response)
                    } else {
                        &&& final(self).stage == (MarginStage::Polling { polls: 0 })
                        &&& step == (OrderStep::LookUp { after_millis: 250 })
                    }
                },
                Err(text) => {
                    &&& final(self).stage == (MarginStage::Lost { submit_error: text })
                    &&& step == (OrderStep::LookUp { after_millis: 300 })
                },
            },
    {
        match answer {
            Ok(response) => {
                let fill = binance_spot_fill(&response);
                let zero = Double { bits: ZERO };
                if fill.1.le(zero) || fill.2.le(zero) {
                    self.stage = MarginStage::Polling { polls: 0 };
                    OrderStep::LookUp { after_millis: 250 }
                } else {
                    self.stage = MarginStage::Settled;
                    self.settle(&response, fill)
                }
            },
            Err(text) => {
                self.stage = MarginStage::Lost { submit_error: text };
                OrderStep::LookUp { after_millis: 300 }
            },
        }
    }

    /// Takes in the answer to a look-up: at most eight are made for the fill.
    pub fn on_lookup(&mut self, answer: Result<Json, String>) -> (step: OrderStep)
        ensures
            counts_only_fills(step, old(self).client_order_id@),
            final(self).client_order_id == old(self).client_order_id,
            match answer {
                Err(text) => {
                    &&& final(self).stage is Settled
                    &&& step matches OrderStep::Finish(Err(f))
                    &&& match old(self).stage {
                        MarginStage::Lost { submit_error } => {
                            &&& f.cause == Some(text)
                            &&& f.reason matches Reason::MarginSubmitUnknown {
                                submit_error: e,
                                client_order_id,
                            }
                            &&& e@ == submit_error@
                            &&& client_order_id@ == old(self).client_order_id@
                        },
                        _ => f == (Failure { reason: Reason::Outside { text }, cause: None }),
                    }
                },
                Ok(response) => {
                    let fill = margin_fill(response);
                    match old(self).stage {
                        MarginStage::Polling { polls } => {
                            let complete = fill.0 == "FILLED"@ && (Double { bits: ZERO }).lt_spec(fill.1) && (
                            Double { bits: ZERO }).lt_spec(fill.2);
                            if complete || polls + 1 >= MARGIN_POLLS {
                                final(self).stage is Settled && old(self).settles(step, response)
                            } else {
                                &&& final(self).stage == (MarginStage::Polling { polls: (polls + 1) as u8 })
                                &&& step == (OrderStep::LookUp { after_millis: 250 })
                            }
                        },
                        _ => if known(fill.1, fill.2) {
                            final(self).stage is Settled && old(self).settles(step, response)
                        } else {
                            &&& final(self).stage == (MarginStage::Polling { polls: 0 })
                            &&& step == (OrderStep::LookUp { after_millis: 250 })
                        },
                    }
                },
            },
    {
        let zero = Double { bits: ZERO };
        match answer {
            Err(text) => {
                let failure = match &self.stage {
                    MarginStage::Lost { submit_error } => Failure::because(
                        Reason::MarginSubmitUnknown {
                            submit_error: submit_error.clone(),
                            client_order_id: self.client_order_id.clone(),
                        },
                        text,
                    ),
                    _ => Failure::new(Reason::Outside { text }),
                };
                self.stage = MarginStage::Settled;
                OrderStep::Finish(Err(failure))
            },
            Ok(response) => {
                let fill = binance_spot_fill(&response);
                let polls: Option<u8> = match &self.stage {
                    MarginStage::Polling { polls } => Some(*polls),
                    _ => None,
                };
                match polls {
                    Some(polls) => {
                        let complete: bool = same(fill.0.as_str(), "FILLED") && fill.1.gt(zero) && fill.2.gt(
                            zero,
                        );
                        if complete || polls >= MARGIN_POLLS - 1 {
                            self.stage = MarginStage::Settled;
                            self.settle(&response, fill)
                        } else {
                            self.stage = MarginStage::Polling { polls: polls + 1 };
                            OrderStep::LookUp { after_millis: 250 }
                        }
                    },
                    None => {
                        if fill.1.le(zero) || fill.2.le(zero) {
                            self.stage = MarginStage::Polling { polls: 0 };
                            OrderStep::LookUp { after_millis: 250 }
                        } else {
                            self.stage = MarginStage::Settled;
                            self.settle(&response, fill)
                        }
                    },
                }
            },
        }
    }
}

/// How far a Bybit order has come.
pub enum LinearStage {
    Submitted,
    /// The order was taken, under an identifier.
    Taken { order_id: String },
    /// The answer was lost.
    Lost { submit_error: String },
    Settled,
}

/// A Bybit order that was sent.
pub struct LinearOrder {
    pub client_order_id: String,
    /// Whether the order is immediate-or-cancel at a limit, not at the market.
    pub ioc: bool,
    pub stage: LinearStage,
}

/// The order that Bybit reports when it is looked up.
pub open spec fn is_listed_order(
    order: OrderExecution,
    value: Json,
    client_order_id: Seq<char>,
    order_id: Seq<char>,
) -> bool {
    let zero = Double { bits: ZERO };
    &&& order.exchange@ == "Bybit"@
    &&& order.client_order_id@ == client_order_id
    &&& order.order_id@ == order_id
    &&& order.status@ == (match value.member("orderStatus"@).string() {
        Some(s) => s,
        None => "Unknown"@,
    })
    &&& order.executed_quantity == (match value.member("cumExecQty"@).amount() {
        Some(q) => q,
        None => zero,
    })
    &&& order.average_price == (match value.member("avgPrice"@).amount() {
        Some(p) => p,
        None => zero,
    })
}

impl LinearOrder {
    pub fn new(client_order_id: String, ioc: bool) -> (run: LinearOrder)
        ensures
            run.client_order_id == client_order_id,
            run.ioc == ioc,
            run.stage is Submitted,
    {
        LinearOrder { client_order_id, ioc, stage: LinearStage::Submitted }
    }

    /// Whether a success of an order at the market is one that was filled in
    /// full.
    pub open spec fn counts_in_full(self, step: OrderStep) -> bool {
        !self.ioc ==> (step matches OrderStep::Finish(Ok(order)) ==> order.status@ == "Filled"@)
    }

    /// Takes in the answer to the order, or that there was none.
    pub fn on_submit(&mut self, answer: Result<Json, String>) -> (step: OrderStep)
        ensures
            counts_only_fills(step, old(self).client_order_id@),
            old(self).counts_in_full(step),
            final(self).client_order_id == old(self).client_order_id,
            final(self).ioc == old(self).ioc,
            match answer {
                Ok(response) => if accepted(response) {
                    &&& step == (OrderStep::Await { millis: 3_000 })
                    &&& final(self).stage matches LinearStage::Taken { order_id }
                    &&& order_id@ == (match response.member("result"@).member("orderId"@).string() {
                        Some(s) => s,
                        None => Seq::<char>::empty(),
                    })
                } else {
                    &&& final(self).stage is Settled
                    &&& step matches OrderStep::Finish(Err(f))
                    &&& f.cause is None
                    &&& f.reason matches Reason::BybitRejected { message }
                    &&& message@ == rendered(response.member("retMsg"@))
                },
                Err(text) => {
                    &&& step == (OrderStep::Await { millis: 3_000 })
                    &&& final(self).stage == (LinearStage::Lost { submit_error: text })
                },
            },
    {
        match answer {
            Ok(response) => {
                if !is_accepted(&response) {
                    self.stage = LinearStage::Settled;
                    return OrderStep::Finish(
                        Err(
                            Failure::new(
                                Reason::BybitRejected { message: render(response.get("retMsg")) },
                            ),
                        ),
                    );
                }
                let order_id = match response.get("result").get("orderId").as_str() {
                    Some(s) => s.to_owned(),
                    None => String::new(),
                };
                self.stage = LinearStage::Taken { order_id };
                OrderStep::Await { millis: 3_000 }
            },
            Err(text) => {
                self.stage = LinearStage::Lost { submit_error: text };
                OrderStep::Await { millis: 3_000 }
            },
        }
    }

    /// Takes in what the account stream reported, or that it kept silent: then
    /// an order that was taken is looked up once.
    pub fn on_stream(&mut self, reported: Option<OrderExecution>) -> (step: OrderStep)
        requires
            reported matches Some(order) ==> order.client_order_id@ == old(self).client_order_id@,
        ensures
            counts_only_fills(step, old(self).client_order_id@),
            old(self).counts_in_full(step),
            final(self).client_order_id == old(self).client_order_id,
            final(self).ioc == old(self).ioc,
            match reported {
                Some(order) => {
                    &&& final(self).stage is Settled
                    &&& step matches OrderStep::Finish(r)
                    &&& bybit_verdict(old(self).ioc, r, order)
                },
                None => match old(self).stage {
                    LinearStage::Lost { submit_error } => {
                        &&& final(self).stage is Settled
                        &&& step matches OrderStep::Finish(Err(f))
                        &&& f.cause is None
                        &&& f.reason matches Reason::BybitSubmitUnknown { submit_error: e, client_order_id }
                        &&& e@ == submit_error@
                        &&& client_order_id@ == old(self).client_order_id@
                    },
                    _ => {
                        &&& final(self).stage == old(self).stage
                        &&& step == (OrderStep::LookUp { after_millis: 0 })
                    },
                },
            },
    {
        match reported {
            Some(order) => {
                self.stage = LinearStage::Settled;
                OrderStep::Finish(bybit_order_or_error(self.ioc, order))
            },
            None => {
                let lost = match &self.stage {
                    LinearStage::Lost { submit_error } => Some(submit_error.clone()),
                    _ => None,
                };
                match lost {
                    Some(submit_error) => {
                        self.stage = LinearStage::Settled;
                        OrderStep::Finish(
                            Err(
                                Failure::new(
                                    Reason::BybitSubmitUnknown {
                                        submit_error,
                                        client_order_id: self.client_order_id.clone(),
                                    },
                                ),
                            ),
                        )
                    },
                    None => OrderStep::LookUp { after_millis: 0 },
                }
            },
        }
    }

    /// Takes in the answer to the look-up, which settles the order.
    pub fn on_lookup(&mut self, answer: Result<Json, String>) -> (step: OrderStep)
        ensures
            counts_only_fills(step, old(self).client_order_id@),
            old(self).counts_in_full(step),
            final(self).client_order_id == old(self).client_order_id,
            final(self).ioc == old(self).ioc,
            final(self).stage is Settled,
            match answer {
                Err(text) => step matches OrderStep::Finish(Err(f)) && f == (Failure {
                    reason: Reason::Outside { text },
                    cause: None,
                }),
                Ok(response) => {
                    let listed = response.member("result"@).member("list"@).elements();
                    let order_id = match old(self).stage {
                        LinearStage::Taken { order_id } => order_id@,
                        _ => Seq::<char>::empty(),
                    };
                    if !accepted(response) {
                        &&& step matches OrderStep::Finish(Err(f))
                        &&& f.cause is None
                        &&& f.reason matches Reason::BybitStatusFailed { message }
                        &&& message@ == rendered(response.member("retMsg"@))
                    } else if listed.len() > 0 {
                        &&& step matches OrderStep::Finish(r)
                        &&& exists|order: OrderExecution|
                            #![auto]
                            is_listed_order(order, listed[0], old(self).client_order_id@, order_id) && bybit_verdict(
                                old(self).ioc,
                                r,
                                order,
                            )
                    } else {
                        &&& step matches OrderStep::Finish(Err(f))
                        &&& f.cause is None
                        &&& f.reason matches Reason::BybitTimeout { client_order_id }
                        &&& client_order_id@ == old(self).client_order_id@
                    }
                },
            },
    {
        let order_id = match &self.stage {
            LinearStage::Taken { order_id } => order_id.clone(),
            _ => String::new(),
        };
        self.stage = LinearStage::Settled;
        match answer {
            Err(text) => OrderStep::Finish(Err(Failure::new(Reason::Outside { text }))),
            Ok(response) => {
                if !is_accepted(&response) {
                    return OrderStep::Finish(
                        Err(
                            Failure::new(
                                Reason::BybitStatusFailed { message: render(response.get("retMsg")) },
                            ),
                        ),
                    );
                }
                if let Some(listed) = response.get("result").get("list").as_array() {
                    if listed.len() > 0 {
                        let zero = Double { bits: ZERO };
                        let value = &listed[0];
                        let status = match value.get("orderStatus").as_str() {
                            Some(s) => s.to_owned(),
                            None => "Unknown".to_owned(),
                        };
                        let order = OrderExecution {
                            exchange: "Bybit".to_owned(),
                            client_order_id: self.client_order_id.clone(),
                            order_id,
                            status,
                            executed_quantity: number_or(value.get("cumExecQty"), zero),
                            average_price: number_or(value.get("avgPrice"), zero),
                        };
                        proof {
                            assert(is_listed_order(
                                order,
                                listed@[0],
                                old(self).client_order_id@,
                                order_id@,
                            ));
                        }
                        return OrderStep::Finish(bybit_order_or_error(self.ioc, order));
                    }
                }
                OrderStep::Finish(
                    Err(
                        Failure::new(
                            Reason::BybitTimeout { client_order_id: self.client_order_id.clone() },
                        ),
                    ),
                )
            },
        }
    }
}

/// The query that sets the leverage at Binance.
pub open spec fn leverage_query_text(symbol: Seq<char>, leverage: u8, now: i64) -> Seq<char> {
    "symbol="@ + symbol + "&leverage="@ + digits(leverage as nat) + "&timestamp="@ + decimal(now as int)
}

/// The query that sets the leverage at Binance.
pub fn leverage_query(symbol: &str, leverage: u8, now: i64) -> (query: String)
    ensures
        query@ == leverage_query_text(symbol@, leverage, now),
{
    let mut q = "symbol=".to_owned();
    q.append(symbol);
    q.append("&leverage=");
    q.append(digits_text(leverage as u128).as_str());
    q.append("&timestamp=");
    q.append(int_text(now).as_str());
    q
}

/// The body that sets the leverage at Bybit.
pub open spec fn leverage_body_text(symbol: Seq<char>, leverage: u8) -> Seq<char> {
    json_object_text(
        seq![
            ("category"@, FieldView::Text("linear"@)),
            ("symbol"@, FieldView::Text(symbol)),
            ("buyLeverage"@, FieldView::Text(digits(leverage as nat))),
            ("sellLeverage"@, FieldView::Text(digits(leverage as nat))),
        ],
    )
}

/// The body that sets the leverage at Bybit.
pub fn leverage_body(symbol: &str, leverage: u8) -> (body: String)
    ensures
        body@ == leverage_body_text(symbol@, leverage),
{
    let mut fields: Vec<(String, Field)> = Vec::new();
    fields.push(text_member("category", "linear".to_owned()));
    fields.push(text_member("symbol", symbol.to_owned()));
    fields.push(text_member("buyLeverage", digits_text(leverage as u128)));
    fields.push(text_member("sellLeverage", digits_text(leverage as u128)));
    proof {
        assert(members(fields@) =~= seq![
            ("category"@, FieldView::Text("linear"@)),
            ("symbol"@, FieldView::Text(symbol@)),
            ("buyLeverage"@, FieldView::Text(digits(leverage as nat))),
            ("sellLeverage"@, FieldView::Text(digits(leverage as nat))),
        ]);
    }
    encode_object(fields)
}

/// The code by which Bybit says that the leverage is already the wanted one.
pub const LEVERAGE_UNCHANGED: i64 = 110043;

/// Reads Bybit's answer to a change of leverage.
pub fn check_leverage_answer(response: &Json) -> (r: Result<(), Failure>)
    ensures
        ({
            let code = response.member("retCode"@).integer();
            if code == Some(0i64) || code == Some(LEVERAGE_UNCHANGED) {
                r is Ok
            } else {
                &&& r matches Err(f)
                &&& f.cause is None
                &&& f.reason matches Reason::BybitLeverage { message }
                &&& message@ == rendered(response.member("retMsg"@))
            }
        }),
{
    let fine: bool = match response.get("retCode").as_i64() {
        Some(code) => code == 0 || code == LEVERAGE_UNCHANGED,
        None => false,
    };
    if fine {
        Ok(())
    } else {
        Err(Failure::new(Reason::BybitLeverage { message: render(response.get("retMsg")) }))
    }
}

/// What has to be asked for so that a market has a leverage.
pub enum LeverageCall {
    /// Nothing: a coin is not levered.
    Nothing,
    /// A query to Binance.
    Binance(String),
    /// A body for Bybit.
    Bybit(String),
}

/// The request that gives a market a leverage.
pub fn set_leverage(exchange: &str, market: &str, symbol: &str, leverage: u8, now: i64) -> (r: Result<
    LeverageCall,
    Failure,
>)
    ensures
        if market@ == "spot"@ {
            r == Ok::<LeverageCall, Failure>(LeverageCall::Nothing)
        } else if exchange@ == "Binance"@ {
            r matches Ok(LeverageCall::Binance(query)) && query@ == leverage_query_text(symbol@, leverage, now)
        } else if exchange@ == "Bybit"@ {
            r matches Ok(LeverageCall::Bybit(body)) && body@ == leverage_body_text(symbol@, leverage)
        } else {
            &&& r matches Err(f)
            &&& f.cause is None
            &&& f.reason matches Reason::UnsupportedExchange { exchange: name }
            &&& name@ == exchange@
        },
{
    if same(market, "spot") {
        return Ok(LeverageCall::Nothing);
    }
    if same(exchange, "Binance") {
        return Ok(LeverageCall::Binance(leverage_query(symbol, leverage, now)));
    }
    if same(exchange, "Bybit") {
        return Ok(LeverageCall::Bybit(leverage_body(symbol, leverage)));
    }
    Err(Failure::new(Reason::UnsupportedExchange { exchange: exchange.to_owned() }))
}

/// Whether Binance holds the two sides of a contract apart.
pub fn is_hedge_mode(response: &Json) -> (b: bool)
    ensures
        b == (response.member("dualSidePosition"@).flag() == Some(true)),
{
    match response.get("dualSidePosition").as_bool() {
        Some(b) => b,
        None => false,
    }
}

} // verus!
