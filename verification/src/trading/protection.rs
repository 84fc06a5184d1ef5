//! Getting out of a leg that has lost its hedge.

use crate::failure::Failure;
use crate::models::{HedgeProtectionEvent, HedgeProtectionStatus, Leg, OrderExecution, PositionLeg};
use crate::num::constants::{ONE, ZERO};
use crate::num::Double;
use crate::sorting::{ascending, occurs_among, sorted_texts};
use crate::text::{base_of_symbol, join, same, without_suffixes};
use crate::trading::amounts::{
    find_route_leg, notional, notional_or_zero, optional_notional, position_notional, protection_order_quantity,
    protective_quantity, route_leg, HEDGE_PROTECTION_ORDER_USDT,
};
use crate::trading::plan::{find_metadata, metadata_of, plans_on, reducing_order, OrderPlan};
use crate::trading::service::{TradingService, PROTECTION_EVENTS_KEPT};
use crate::config::TradingMode;
use crate::trading::tasks::{active, is_active};
use vstd::prelude::*;

verus! {

/// The two legs that a token has been held by.
#[derive(Debug)]
pub struct ProtectedRoute {
    pub token: String,
    pub symbol: String,
    pub long_exchange: String,
    pub long_market: String,
    pub short_exchange: String,
    pub short_market: String,
}

impl Clone for ProtectedRoute {
    fn clone(&self) -> (r: Self)
        ensures
            r == *self,
    {
        ProtectedRoute {
            token: self.token.clone(),
            symbol: self.symbol.clone(),
            long_exchange: self.long_exchange.clone(),
            long_market: self.long_market.clone(),
            short_exchange: self.short_exchange.clone(),
            short_market: self.short_market.clone(),
        }
    }
}

/// Whether a leg is a counterpart of a long one: short, of the same symbol, and
/// not in the same market.
pub open spec fn hedges(leg: PositionLeg, long: PositionLeg) -> bool {
    &&& leg.symbol@ == long.symbol@
    &&& leg.side@ == "short"@
    &&& (leg.exchange@ != long.exchange@ || leg.market@ != long.market@)
}

/// The first counterpart of a long leg.
pub open spec fn counterpart(legs: Seq<PositionLeg>, long: PositionLeg) -> Option<int>
    decreases legs.len(),
{
    if legs.len() == 0 {
        None
    } else if hedges(legs[0], long) {
        Some(0)
    } else {
        match counterpart(legs.drop_first(), long) {
            Some(i) => Some(i + 1),
            None => None,
        }
    }
}

pub fn find_counterpart(legs: &Vec<PositionLeg>, long: &PositionLeg) -> (r: Option<usize>)
    ensures
        match r {
            Some(i) => i < legs@.len() && counterpart(legs@, *long) == Some(i as int),
            None => counterpart(legs@, *long) is None,
        },
{
    let mut i: usize = 0;
    proof {
        assert(legs@.skip(0) =~= legs@);
    }
    while i < legs.len()
        invariant
            i <= legs@.len(),
            counterpart(legs@, *long) == match counterpart(legs@.skip(i as int), *long) {
                Some(j) => Some(j + i),
                None => None,
            },
        decreases legs@.len() - i,
    {
        proof {
            assert(legs@.skip(i as int)[0] == legs@[i as int]);
            assert(legs@.skip(i as int).drop_first() =~= legs@.skip(i as int + 1));
        }
        let leg = &legs[i];
        if same(leg.symbol.as_str(), long.symbol.as_str()) && same(leg.side.as_str(), "short") && (!same(
            leg.exchange.as_str(),
            long.exchange.as_str(),
        ) || !same(leg.market.as_str(), long.market.as_str())) {
            return Some(i);
        }
        i = i + 1;
    }
    None
}

/// Whether a route is that of a long leg and its counterpart.
pub open spec fn is_route_of(route: ProtectedRoute, long: PositionLeg, short: PositionLeg) -> bool {
    &&& route.token@ == without_suffixes(long.symbol@, "USDT"@)
    &&& route.symbol == long.symbol
    &&& route.long_exchange == long.exchange
    &&& route.long_market == long.market
    &&& route.short_exchange == short.exchange
    &&& route.short_market == short.market
}

/// The place of the route of a token.
pub open spec fn route_at(routes: Seq<ProtectedRoute>, token: Seq<char>) -> Option<int>
    decreases routes.len(),
{
    if routes.len() == 0 {
        None
    } else if routes[0].token@ == token {
        Some(0)
    } else {
        match route_at(routes.drop_first(), token) {
            Some(i) => Some(i + 1),
            None => None,
        }
    }
}

fn find_route(routes: &Vec<ProtectedRoute>, token: &str) -> (r: Option<usize>)
    ensures
        match r {
            Some(i) => i < routes@.len() && route_at(routes@, token@) == Some(i as int),
            None => route_at(routes@, token@) is None,
        },
{
    let mut i: usize = 0;
    proof {
        assert(routes@.skip(0) =~= routes@);
    }
    while i < routes.len()
        invariant
            i <= routes@.len(),
            route_at(routes@, token@) == match route_at(routes@.skip(i as int), token@) {
                Some(j) => Some(j + i),
                None => None,
            },
        decreases routes@.len() - i,
    {
        proof {
            assert(routes@.skip(i as int)[0] == routes@[i as int]);
            assert(routes@.skip(i as int).drop_first() =~= routes@.skip(i as int + 1));
        }
        if same(routes[i].token.as_str(), token) {
            return Some(i);
        }
        i = i + 1;
    }
    None
}

/// The routes with one put in: in the place of the one of its token, or at the
/// end.
pub open spec fn routed(routes: Seq<ProtectedRoute>, route: ProtectedRoute) -> Seq<ProtectedRoute> {
    match route_at(routes, route.token@) {
        Some(i) => routes.update(i, route),
        None => routes.push(route),
    }
}

/// Whether routes are others after the first `n` of the legs were looked at:
/// every long leg with a counterpart makes the route of its token.
pub open spec fn remembered(
    new: Seq<ProtectedRoute>,
    old: Seq<ProtectedRoute>,
    legs: Seq<PositionLeg>,
    n: nat,
) -> bool
    decreases n,
{
    if n == 0 {
        new == old
    } else {
        let leg = legs[n - 1];
        if leg.side@ == "long"@ && counterpart(legs, leg) is Some {
            exists|before: Seq<ProtectedRoute>, route: ProtectedRoute|
                remembered(before, old, legs, (n - 1) as nat) && is_route_of(
                    route,
                    leg,
                    legs[counterpart(legs, leg)->0],
                ) && new == #[trigger] routed(before, route)
        } else {
            remembered(new, old, legs, (n - 1) as nat)
        }
    }
}

/// The long leg of a route, if it is held.
pub open spec fn long_of(route: ProtectedRoute, legs: Seq<PositionLeg>) -> Option<PositionLeg> {
    route_leg(legs, route.long_exchange@, route.long_market@, route.symbol@, "long"@)
}

/// The short leg of a route, if it is held.
pub open spec fn short_of(route: ProtectedRoute, legs: Seq<PositionLeg>) -> Option<PositionLeg> {
    route_leg(legs, route.short_exchange@, route.short_market@, route.symbol@, "short"@)
}

/// Whether just one of the legs of a route is held.
pub open spec fn orphaned(route: ProtectedRoute, legs: Seq<PositionLeg>) -> bool {
    long_of(route, legs) is Some != short_of(route, legs) is Some
}

impl ProtectedRoute {
    /// Whether just one of the legs is held.
    pub fn needs_protection(&self, legs: &Vec<PositionLeg>) -> (b: bool)
        ensures
            b == orphaned(*self, legs@),
    {
        let long = find_route_leg(
            legs,
            self.long_exchange.as_str(),
            self.long_market.as_str(),
            self.symbol.as_str(),
            "long",
        );
        let short = find_route_leg(
            legs,
            self.short_exchange.as_str(),
            self.short_market.as_str(),
            self.symbol.as_str(),
            "short",
        );
        long.is_some() != short.is_some()
    }
}

/// The routes of which just one leg is held.
pub open spec fn orphans(routes: Seq<ProtectedRoute>, legs: Seq<PositionLeg>) -> Seq<ProtectedRoute>
    decreases routes.len(),
{
    if routes.len() == 0 {
        Seq::empty()
    } else {
        let before = orphans(routes.drop_last(), legs);
        if orphaned(routes.last(), legs) {
            before.push(routes.last())
        } else {
            before
        }
    }
}

/// An event at its start.
pub open spec fn is_new_event(event: HedgeProtectionEvent, route: ProtectedRoute, id: String, now: i64) -> bool {
    &&& event.id == id
    &&& event.token == route.token
    &&& event.event_type@ == "detecting"@
    &&& event.status@ == "running"@
    &&& event.message@ == "检测到一条腿不存在，准备退出剩余腿"@
    &&& event.started_at == now
    &&& event.updated_at == now
    &&& event.initial_long_notional_usdt is None
    &&& event.initial_short_notional_usdt is None
    &&& event.final_long_notional_usdt is None
    &&& event.final_short_notional_usdt is None
    &&& event.orders@ == Seq::<OrderExecution>::empty()
}

/// The event of a route that has lost a leg.
pub fn new_event(route: &ProtectedRoute, id: String, now: i64) -> (event: HedgeProtectionEvent)
    ensures
        is_new_event(event, *route, id, now),
{
    HedgeProtectionEvent {
        id,
        token: route.token.clone(),
        event_type: "detecting".to_owned(),
        status: "running".to_owned(),
        message: "检测到一条腿不存在，准备退出剩余腿".to_owned(),
        started_at: now,
        updated_at: now,
        initial_long_notional_usdt: None,
        initial_short_notional_usdt: None,
        final_long_notional_usdt: None,
        final_short_notional_usdt: None,
        orders: Vec::new(),
    }
}

/// Whether an event is another one that has ended.
pub open spec fn ended(
    new: HedgeProtectionEvent,
    old: HedgeProtectionEvent,
    status: Seq<char>,
    message: Seq<char>,
    now: i64,
) -> bool {
    &&& new == (HedgeProtectionEvent { status: new.status, message: new.message, updated_at: now, ..old })
    &&& new.status@ == status
    &&& new.message@ == message
}

/// Ends an event well.
pub fn complete_protection_event(event: &mut HedgeProtectionEvent, message: &str, now: i64)
    ensures
        ended(*final(event), *old(event), "completed"@, message@, now),
{
    event.status = "completed".to_owned();
    event.message = message.to_owned();
    event.updated_at = now;
}

/// Ends an event that could not do its work.
pub fn fail_protection_event(event: &mut HedgeProtectionEvent, message: &str, now: i64)
    ensures
        ended(*final(event), *old(event), "failed"@, message@, now),
{
    event.status = "failed".to_owned();
    event.message = message.to_owned();
    event.updated_at = now;
}

/// What to do about a route that has lost a leg.
pub enum ProtectionStep {
    /// The event has ended.
    Ended,
    /// Send this order.
    Place(OrderPlan),
}

/// The event once the legs have been looked at.
pub open spec fn observed(event: HedgeProtectionEvent, long: Double, short: Double, now: i64) -> HedgeProtectionEvent {
    HedgeProtectionEvent {
        initial_long_notional_usdt: if event.initial_long_notional_usdt is None {
            Some(long)
        } else {
            event.initial_long_notional_usdt
        },
        initial_short_notional_usdt: if event.initial_long_notional_usdt is None {
            Some(short)
        } else {
            event.initial_short_notional_usdt
        },
        final_long_notional_usdt: Some(long),
        final_short_notional_usdt: Some(short),
        updated_at: now,
        ..event
    }
}

/// Whether an event is another one that is getting out of a leg.
pub open spec fn exiting(new: HedgeProtectionEvent, old: HedgeProtectionEvent) -> bool {
    &&& new == (HedgeProtectionEvent { event_type: new.event_type, message: new.message, ..old })
    &&& new.event_type@ == "orphan_exit"@
    &&& new.message@ == "检测到一条腿归零，正在批量退出剩余腿"@
}

/// The leg that is left.
pub open spec fn remaining_leg(route: ProtectedRoute, legs: Seq<PositionLeg>) -> PositionLeg {
    if long_of(route, legs) is Some {
        long_of(route, legs)->0
    } else {
        short_of(route, legs)->0
    }
}

/// The side of an order that gets out of a leg.
pub open spec fn exit_side(leg: PositionLeg) -> Seq<char> {
    if leg.side@ == "long"@ {
        "Sell"@
    } else {
        "Buy"@
    }
}

/// Takes in the legs as they are, and decides what to do: nothing more where
/// both legs are there or both are gone; otherwise a reduce-only order on the
/// one that is left.
pub fn inspect(
    event: &mut HedgeProtectionEvent,
    route: &ProtectedRoute,
    legs: &Vec<PositionLeg>,
    market_legs: &Vec<Leg>,
    now: i64,
) -> (step: ProtectionStep)
    ensures
        ({
            let long = long_of(*route, legs@);
            let short = short_of(*route, legs@);
            let seen = observed(*old(event), notional_or_zero(long), notional_or_zero(short), now);
            if long is None && short is None {
                step is Ended && ended(*final(event), seen, "completed"@, "双腿仓位均已归零"@, now)
            } else if long is Some && short is Some {
                step is Ended && ended(
                    *final(event),
                    seen,
                    "completed"@,
                    "双腿均存在，孤腿保护停止"@,
                    now,
                )
            } else {
                let target = remaining_leg(*route, legs@);
                let found = metadata_of(market_legs@, target.exchange@, target.market@, target.symbol@);
                exists|mid: HedgeProtectionEvent| #[trigger]
                    exiting(mid, seen) && if found is None {
                        step is Ended && ended(*final(event), mid, "failed"@, "找不到剩余腿的合约元数据"@, now)
                    } else {
                        let quantity = protective_quantity(
                            target,
                            notional(target),
                            market_legs@[found->0].qty_step,
                            true,
                        );
                        if quantity.le_spec(Double { bits: ZERO }) {
                            step is Ended && ended(
                                *final(event),
                                mid,
                                "failed"@,
                                "保护订单数量计算为零"@,
                                now,
                            )
                        } else {
                            &&& *final(event) == mid
                            &&& step matches ProtectionStep::Place(plan)
                            &&& plans_on(plan, target, exit_side(target), quantity)
                        }
                    }
            }
        }),
{
    let long = find_route_leg(
        legs,
        route.long_exchange.as_str(),
        route.long_market.as_str(),
        route.symbol.as_str(),
        "long",
    );
    let short = find_route_leg(
        legs,
        route.short_exchange.as_str(),
        route.short_market.as_str(),
        route.symbol.as_str(),
        "short",
    );
    let long_notional = optional_notional(&long);
    let short_notional = optional_notional(&short);
    if event.initial_long_notional_usdt.is_none() {
        event.initial_long_notional_usdt = Some(long_notional);
        event.initial_short_notional_usdt = Some(short_notional);
    }
    event.final_long_notional_usdt = Some(long_notional);
    event.final_short_notional_usdt = Some(short_notional);
    event.updated_at = now;
    let ghost seen = *event;
    let target = match (long, short) {
        (None, None) => {
            complete_protection_event(event, "双腿仓位均已归零", now);
            return ProtectionStep::Ended;
        },
        (Some(_), Some(_)) => {
            complete_protection_event(event, "双腿均存在，孤腿保护停止", now);
            return ProtectionStep::Ended;
        },
        (Some(leg), None) => leg,
        (None, Some(leg)) => leg,
    };
    event.event_type = "orphan_exit".to_owned();
    event.message = "检测到一条腿归零，正在批量退出剩余腿".to_owned();
    let ghost mid = *event;
    proof {
        assert(exiting(mid, seen));
    }
    let found = match find_metadata(
        market_legs,
        target.exchange.as_str(),
        target.market.as_str(),
        target.symbol.as_str(),
    ) {
        Some(i) => i,
        None => {
            fail_protection_event(event, "找不到剩余腿的合约元数据", now);
            return ProtectionStep::Ended;
        },
    };
    let quantity = protection_order_quantity(
        &target,
        position_notional(&target),
        market_legs[found].qty_step,
        true,
    );
    if quantity.le(Double { bits: ZERO }) {
        fail_protection_event(event, "保护订单数量计算为零", now);
        return ProtectionStep::Ended;
    }
    let side = if same(target.side.as_str(), "long") {
        "Sell"
    } else {
        "Buy"
    };
    ProtectionStep::Place(reducing_order(&target, side, quantity))
}

/// Takes in what came of a protective order. The result says whether the event
/// goes on.
pub fn on_protective_order(
    event: &mut HedgeProtectionEvent,
    order: Result<OrderExecution, Failure>,
    now: i64,
) -> (goes_on: bool)
    ensures
        match order {
            Ok(o) => {
                &&& goes_on
                &&& *final(event) == (HedgeProtectionEvent {
                    orders: final(event).orders,
                    updated_at: now,
                    ..*old(event)
                })
                &&& final(event).orders@ == old(event).orders@.push(o)
            },
            Err(f) => !goes_on && ended(
                *final(event),
                *old(event),
                "failed"@,
                "保护性 reduceOnly 订单失败："@ + f.chain(),
                now,
            ),
        },
{
    match order {
        Ok(o) => {
            event.orders.push(o);
            event.updated_at = now;
            true
        },
        Err(f) => {
            fail_protection_event(event, join("保护性 reduceOnly 订单失败：", f.detail().as_str()).as_str(), now);
            false
        },
    }
}

/// Only a leg that has lost its hedge is ever touched, only to reduce it, and
/// by an order of the opposite side.
pub proof fn lemma_protection_only_reduces_orphans(
    route: ProtectedRoute,
    legs: Seq<PositionLeg>,
    plan: OrderPlan,
    quantity: Double,
)
    requires
        orphaned(route, legs),
        plans_on(
            plan,
            remaining_leg(route, legs),
            exit_side(remaining_leg(route, legs)),
            quantity,
        ),
    ensures
        plan.reduce_only,
        plan.limit_price is None,
        plan.symbol@ == route.symbol@,
        long_of(route, legs) is Some ==> plan.side@ == "Sell"@ && plan.exchange@ == route.long_exchange@
            && plan.market@ == route.long_market@,
        short_of(route, legs) is Some ==> plan.side@ == "Buy"@ && plan.exchange@ == route.short_exchange@
            && plan.market@ == route.short_market@,
{
    reveal_strlit("long");
    reveal_strlit("short");
    assert("long"@.len() != "short"@.len());
    lemma_route_leg_is_named(legs, route.long_exchange@, route.long_market@, route.symbol@, "long"@);
    lemma_route_leg_is_named(legs, route.short_exchange@, route.short_market@, route.symbol@, "short"@);
}

proof fn lemma_route_leg_is_named(
    legs: Seq<PositionLeg>,
    exchange: Seq<char>,
    market: Seq<char>,
    symbol: Seq<char>,
    side: Seq<char>,
)
    ensures
        route_leg(legs, exchange, market, symbol, side) matches Some(leg) ==> leg.exchange@ == exchange
            && leg.market@ == market && leg.symbol@ == symbol && leg.side@ == side,
    decreases legs.len(),
{
    if legs.len() > 0 {
        lemma_route_leg_is_named(legs.drop_first(), exchange, market, symbol, side);
    }
}

/// The events with one more: the oldest goes where there are too many.
pub open spec fn logged(events: Seq<HedgeProtectionEvent>, event: HedgeProtectionEvent) -> Seq<
    HedgeProtectionEvent,
> {
    if events.len() >= PROTECTION_EVENTS_KEPT {
        events.push(event).drop_first()
    } else {
        events.push(event)
    }
}

/// The place of an event.
pub open spec fn event_at(events: Seq<HedgeProtectionEvent>, id: Seq<char>) -> Option<int>
    decreases events.len(),
{
    if events.len() == 0 {
        None
    } else if events[0].id@ == id {
        Some(0)
    } else {
        match event_at(events.drop_first(), id) {
            Some(i) => Some(i + 1),
            None => None,
        }
    }
}

impl TradingService {
    /// Learns from the legs which routes are held.
    pub fn remember_protected_routes(&mut self, legs: &Vec<PositionLeg>)
        ensures
            *final(self) == (TradingService { protected_routes: final(self).protected_routes, ..*old(self) }),
            remembered(
                final(self).protected_routes@,
                old(self).protected_routes@,
                legs@,
                legs@.len(),
            ),
    {
        let ghost at_first = self.protected_routes@;
        let mut i: usize = 0;
        while i < legs.len()
            invariant
                i <= legs@.len(),
                *self == (TradingService { protected_routes: self.protected_routes, ..*old(self) }),
                remembered(self.protected_routes@, at_first, legs@, i as nat),
            decreases legs@.len() - i,
        {
            let long = &legs[i];
            if same(long.side.as_str(), "long") {
                if let Some(k) = find_counterpart(legs, long) {
                    let short = &legs[k];
                    let route = ProtectedRoute {
                        token: base_of_symbol(long.symbol.as_str()),
                        symbol: long.symbol.clone(),
                        long_exchange: long.exchange.clone(),
                        long_market: long.market.clone(),
                        short_exchange: short.exchange.clone(),
                        short_market: short.market.clone(),
                    };
                    let ghost before = self.protected_routes@;
                    let ghost one = route;
                    match find_route(&self.protected_routes, route.token.as_str()) {
                        Some(at) => {
                            self.protected_routes.set(at, route);
                        },
                        None => {
                            self.protected_routes.push(route);
                        },
                    }
                    proof {
                        assert(remembered(before, at_first, legs@, i as nat));
                        assert(is_route_of(one, legs@[i as int], legs@[k as int]));
                        assert(self.protected_routes@ == routed(before, one));
                    }
                }
            }
            i = i + 1;
        }
    }

    /// The routes that have lost a leg. While a task holds the desk its legs
    /// are left alone.
    pub fn routes_at_risk(&self, legs: &Vec<PositionLeg>) -> (routes: Vec<ProtectedRoute>)
        ensures
            routes@ == (if exists|i: int|
                0 <= i < self.batch_tasks@.len() && active(#[trigger] self.batch_tasks@[i]) {
                Seq::<ProtectedRoute>::empty()
            } else {
                orphans(self.protected_routes@, legs@)
            }),
    {
        let mut routes: Vec<ProtectedRoute> = Vec::new();
        let mut k: usize = 0;
        while k < self.batch_tasks.len()
            invariant
                k <= self.batch_tasks@.len(),
                routes@ == Seq::<ProtectedRoute>::empty(),
                forall|i: int| 0 <= i < k ==> !active(#[trigger] self.batch_tasks@[i]),
            decreases self.batch_tasks@.len() - k,
        {
            if is_active(&self.batch_tasks[k]) {
                return routes;
            }
            k = k + 1;
        }
        let ghost all = self.protected_routes@;
        let mut i: usize = 0;
        proof {
            assert(all.take(0) =~= Seq::<ProtectedRoute>::empty());
        }
        while i < self.protected_routes.len()
            invariant
                i <= self.protected_routes@.len(),
                all == self.protected_routes@,
                routes@ == orphans(all.take(i as int), legs@),
            decreases self.protected_routes@.len() - i,
        {
            proof {
                assert(all.take(i as int + 1).drop_last() =~= all.take(i as int));
            }
            if self.protected_routes[i].needs_protection(legs) {
                routes.push(self.protected_routes[i].clone());
            }
            i = i + 1;
        }
        proof {
            assert(all.take(all.len() as int) =~= all);
        }
        routes
    }

    /// Whether nothing but the events differs.
    pub open spec fn only_events(self, old: TradingService) -> bool {
        self == (TradingService { protection_events: self.protection_events, ..old })
    }

    /// Keeps an event, and at most a hundred of them.
    pub fn push_protection_event(&mut self, event: HedgeProtectionEvent)
        requires
            old(self).wf(),
        ensures
            final(self).wf(),
            final(self).only_events(*old(self)),
            final(self).protection_events@ == logged(old(self).protection_events@, event),
    {
        self.protection_events.push(event);
        if self.protection_events.len() > PROTECTION_EVENTS_KEPT {
            let ghost before = self.protection_events@;
            self.protection_events.remove(0);
            proof {
                assert(self.protection_events@ =~= before.drop_first());
            }
        }
    }

    /// Keeps the newest state of an event, if the event is still kept.
    pub fn update_protection_event(&mut self, event: HedgeProtectionEvent)
        requires
            old(self).wf(),
        ensures
            final(self).wf(),
            final(self).only_events(*old(self)),
            final(self).protection_events@ == match event_at(old(self).protection_events@, event.id@) {
                Some(i) => old(self).protection_events@.update(i, event),
                None => old(self).protection_events@,
            },
    {
        let ghost all = self.protection_events@;
        let mut i: usize = 0;
        proof {
            assert(all.skip(0) =~= all);
        }
        while i < self.protection_events.len()
            invariant
                i <= self.protection_events@.len(),
                *self == *old(self),
                self.wf(),
                all == self.protection_events@,
                event_at(all, event.id@) == match event_at(all.skip(i as int), event.id@) {
                    Some(j) => Some(j + i),
                    None => None,
                },
            decreases self.protection_events@.len() - i,
        {
            proof {
                assert(all.skip(i as int)[0] == all[i as int]);
                assert(all.skip(i as int).drop_first() =~= all.skip(i as int + 1));
            }
            if same(self.protection_events[i].id.as_str(), event.id.as_str()) {
                self.protection_events.set(i, event);
                return;
            }
            i = i + 1;
        }
    }

    /// The state of the protection: which tokens it watches, and what it did.
    pub fn hedge_protection_status(&self) -> (status: HedgeProtectionStatus)
        ensures
            status.enabled == self.live(),
            status.tolerance_percent == (Double { bits: ZERO }),
            status.minimum_difference_usdt == (Double { bits: ZERO }),
            status.order_notional_usdt == (Double { bits: HEDGE_PROTECTION_ORDER_USDT }),
            status.interval_seconds == (Double { bits: ONE }),
            ascending(status.protected_tokens@),
            forall|t: Seq<char>| #[trigger]
                occurs_among(status.protected_tokens@, t) <==> exists|i: int|
                    0 <= i < self.protected_routes@.len() && (#[trigger] self.protected_routes@[i]).token@ == t,
            status.events@.len() == self.protection_events@.len(),
            forall|i: int|
                0 <= i < status.events@.len() ==> (#[trigger] status.events@[i]).copies(
                    self.protection_events@[i],
                ),
    {
        let mut tokens: Vec<String> = Vec::new();
        let mut i: usize = 0;
        while i < self.protected_routes.len()
            invariant
                i <= self.protected_routes@.len(),
                tokens@.len() == i,
                forall|k: int| 0 <= k < i ==> #[trigger] tokens@[k] == self.protected_routes@[k].token,
            decreases self.protected_routes@.len() - i,
        {
            tokens.push(self.protected_routes[i].token.clone());
            i = i + 1;
        }
        let mut events: Vec<HedgeProtectionEvent> = Vec::new();
        let mut k: usize = 0;
        while k < self.protection_events.len()
            invariant
                k <= self.protection_events@.len(),
                events@.len() == k,
                forall|j: int|
                    0 <= j < k ==> (#[trigger] events@[j]).copies(self.protection_events@[j]),
            decreases self.protection_events@.len() - k,
        {
            events.push(self.protection_events[k].clone());
            k = k + 1;
        }
        let protected_tokens = sorted_texts(&tokens);
        proof {
            assert forall|t: Seq<char>| #[trigger] occurs_among(protected_tokens@, t) <==> exists|i: int|
                0 <= i < self.protected_routes@.len() && (#[trigger] self.protected_routes@[i]).token@ == t by {
                if occurs_among(tokens@, t) {
                    let j = choose|j: int| 0 <= j < tokens@.len() && (#[trigger] tokens@[j])@ == t;
                    assert(self.protected_routes@[j].token@ == t);
                }
                if exists|i: int|
                    0 <= i < self.protected_routes@.len() && (#[trigger] self.protected_routes@[i]).token@
                        == t {
                    let j = choose|i: int|
                        0 <= i < self.protected_routes@.len() && (#[trigger] self.protected_routes@[i]).token@
                            == t;
                    assert(tokens@[j]@ == t);
                }
            }
        }
        let zero = Double { bits: ZERO };
        HedgeProtectionStatus {
            enabled: self.config.trading_mode == TradingMode::Live,
            tolerance_percent: zero,
            minimum_difference_usdt: zero,
            order_notional_usdt: Double { bits: HEDGE_PROTECTION_ORDER_USDT },
            interval_seconds: Double { bits: ONE },
            protected_tokens,
            events,
        }
    }
}

} // verus!
