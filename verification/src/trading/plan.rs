//! Orders before they are sent.

use crate::models::{Leg, OrderExecution, PositionLeg};
use crate::num::Double;
use crate::text::same;
use vstd::prelude::*;

verus! {

/// An order to be placed: at the market, or immediate-or-cancel at a limit.
#[derive(Debug)]
pub struct OrderPlan {
    pub exchange: String,
    pub market: String,
    pub symbol: String,
    pub side: String,
    pub quantity: Double,
    pub reduce_only: bool,
    pub limit_price: Option<Double>,
}

/// Whether a plan is the given order on a leg.
pub open spec fn plans(
    plan: OrderPlan,
    leg: Leg,
    side: Seq<char>,
    quantity: Double,
    reduce_only: bool,
    limit_price: Option<Double>,
) -> bool {
    &&& plan.exchange@ == leg.exchange@
    &&& plan.market@ == leg.market@
    &&& plan.symbol@ == leg.symbol@
    &&& plan.side@ == side
    &&& plan.quantity == quantity
    &&& plan.reduce_only == reduce_only
    &&& plan.limit_price == limit_price
}

/// A market order on a leg.
pub fn market_order(leg: &Leg, side: &str, quantity: Double, reduce_only: bool) -> (plan: OrderPlan)
    ensures
        plans(plan, *leg, side@, quantity, reduce_only, None),
{
    OrderPlan {
        exchange: leg.exchange.clone(),
        market: leg.market.clone(),
        symbol: leg.symbol.clone(),
        side: side.to_owned(),
        quantity,
        reduce_only,
        limit_price: None,
    }
}

/// An immediate-or-cancel limit order on a leg.
pub fn limit_order(leg: &Leg, side: &str, quantity: Double, price: Double, reduce_only: bool) -> (plan:
    OrderPlan)
    ensures
        plans(plan, *leg, side@, quantity, reduce_only, Some(price)),
{
    OrderPlan {
        exchange: leg.exchange.clone(),
        market: leg.market.clone(),
        symbol: leg.symbol.clone(),
        side: side.to_owned(),
        quantity,
        reduce_only,
        limit_price: Some(price),
    }
}

/// Whether a plan is the given market order on a held leg.
pub open spec fn plans_on(plan: OrderPlan, leg: PositionLeg, side: Seq<char>, quantity: Double) -> bool {
    &&& plan.exchange@ == leg.exchange@
    &&& plan.market@ == leg.market@
    &&& plan.symbol@ == leg.symbol@
    &&& plan.side@ == side
    &&& plan.quantity == quantity
    &&& plan.reduce_only
    &&& plan.limit_price is None
}

/// A reduce-only market order on a held leg.
pub fn reducing_order(leg: &PositionLeg, side: &str, quantity: Double) -> (plan: OrderPlan)
    ensures
        plans_on(plan, *leg, side@, quantity),
{
    OrderPlan {
        exchange: leg.exchange.clone(),
        market: leg.market.clone(),
        symbol: leg.symbol.clone(),
        side: side.to_owned(),
        quantity,
        reduce_only: true,
        limit_price: None,
    }
}

/// The metadata of a held leg: the first market of that name.
pub open spec fn metadata_of(legs: Seq<Leg>, exchange: Seq<char>, market: Seq<char>, symbol: Seq<char>) -> Option<
    int,
>
    decreases legs.len(),
{
    if legs.len() == 0 {
        None
    } else if legs[0].exchange@ == exchange && legs[0].market@ == market && legs[0].symbol@ == symbol {
        Some(0)
    } else {
        match metadata_of(legs.drop_first(), exchange, market, symbol) {
            Some(i) => Some(i + 1),
            None => None,
        }
    }
}

/// The place of the metadata of a held leg.
pub fn find_metadata(legs: &Vec<Leg>, exchange: &str, market: &str, symbol: &str) -> (r: Option<usize>)
    ensures
        match r {
            Some(i) => i < legs@.len() && metadata_of(legs@, exchange@, market@, symbol@) == Some(i as int),
            None => metadata_of(legs@, exchange@, market@, symbol@) is None,
        },
{
    let mut i: usize = 0;
    proof {
        assert(legs@.skip(0) =~= legs@);
    }
    while i < legs.len()
        invariant
            i <= legs@.len(),
            metadata_of(legs@, exchange@, market@, symbol@) == match metadata_of(
                legs@.skip(i as int),
                exchange@,
                market@,
                symbol@,
            ) {
                Some(j) => Some(j + i),
                None => None,
            },
        decreases legs@.len() - i,
    {
        proof {
            assert(legs@.skip(i as int)[0] == legs@[i as int]);
            assert(legs@.skip(i as int).drop_first() =~= legs@.skip(i as int + 1));
        }
        if same(legs[i].exchange.as_str(), exchange) && same(legs[i].market.as_str(), market) && same(
            legs[i].symbol.as_str(),
            symbol,
        ) {
            return Some(i);
        }
        i = i + 1;
    }
    None
}

/// What came of an order: its execution, or the text of what went wrong.
pub enum Outcome {
    Filled(OrderExecution),
    Failed(String),
}

} // verus!
