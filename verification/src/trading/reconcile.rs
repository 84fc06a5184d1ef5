//! Bringing the legs of a position to where they should be.

use crate::failure::{Failure, Reason};
use crate::models::{Leg, OrderExecution, PositionLeg};
use crate::num::constants::{EPSILON, TEN_THOUSAND, ZERO};
use crate::num::double::of_int;
use crate::num::Double;
use crate::text::same;
use crate::trading::amounts::{
    floor_step, floored, hedge_notional_mismatch_exceeds, mismatched, notional, notional_or_zero,
    optional_notional, POSITION_RECONCILIATION_TOLERANCE_RATIO,
};
use crate::trading::guard::MAX_RECONCILIATION_ATTEMPTS;
use crate::trading::plan::{market_order, plans, OrderPlan};
use vstd::prelude::*;

verus! {

/// How often an empty pair of legs is looked at before it is believed.
pub const POSITION_SETTLEMENT_CHECKS: u8 = 3;

/// How much worse than expected an order was filled, in basis points.
pub open spec fn slippage_bps(order: OrderExecution, expected: Double, is_buy: bool) -> Double {
    (if is_buy {
        order.average_price.sub_spec(expected).div_spec(expected)
    } else {
        expected.sub_spec(order.average_price).div_spec(expected)
    }).max_spec(Double { bits: ZERO }).mul_spec(Double { bits: TEN_THOUSAND })
}

/// Whether a fill is no fill at all.
pub open spec fn invalid_fill(order: OrderExecution) -> bool {
    order.executed_quantity.le_spec(Double { bits: ZERO }) || order.average_price.le_spec(
        Double { bits: ZERO },
    )
}

/// Whether a fill lies within the limit.
pub open spec fn within_slippage(order: OrderExecution, expected: Double, is_buy: bool, limit: u32) -> bool {
    !invalid_fill(order) && !of_int(limit as int).lt_spec(slippage_bps(order, expected, is_buy))
}

pub fn ensure_slippage(order: &OrderExecution, expected_price: Double, is_buy: bool, max_slippage_bps: u32) -> (r:
    Result<(), Failure>)
    ensures
        r is Ok == within_slippage(*order, expected_price, is_buy, max_slippage_bps),
        r matches Err(f) ==> f.cause is None && (if invalid_fill(*order) {
            &&& f.reason matches Reason::InvalidFill { exchange, client_order_id }
            &&& exchange@ == order.exchange@
            &&& client_order_id@ == order.client_order_id@
        } else {
            &&& f.reason matches Reason::Slippage { exchange, actual_bps, limit, client_order_id }
            &&& exchange@ == order.exchange@
            &&& actual_bps == slippage_bps(*order, expected_price, is_buy)
            &&& limit == max_slippage_bps
            &&& client_order_id@ == order.client_order_id@
        }),
{
    let zero = Double { bits: ZERO };
    if order.executed_quantity.le(zero) || order.average_price.le(zero) {
        return Err(
            Failure::new(
                Reason::InvalidFill {
                    exchange: order.exchange.clone(),
                    client_order_id: order.client_order_id.clone(),
                },
            ),
        );
    }
    let adverse = if is_buy {
        order.average_price.sub(expected_price).div(expected_price)
    } else {
        expected_price.sub(order.average_price).div(expected_price)
    };
    let actual_bps = adverse.max(zero).mul(Double { bits: TEN_THOUSAND });
    if actual_bps.gt(Double::from_int(max_slippage_bps as i64)) {
        return Err(
            Failure::new(
                Reason::Slippage {
                    exchange: order.exchange.clone(),
                    actual_bps,
                    limit: max_slippage_bps as u64,
                    client_order_id: order.client_order_id.clone(),
                },
            ),
        );
    }
    Ok(())
}

/// The price that a leg is reckoned with: its mark where it is known.
pub open spec fn reference(state: Option<PositionLeg>, otherwise: Double) -> Double {
    match state {
        Some(leg) => if (Double { bits: ZERO }).lt_spec(leg.mark_price) {
            leg.mark_price
        } else {
            otherwise
        },
        None => otherwise,
    }
}

fn reference_price(state: &Option<PositionLeg>, otherwise: Double) -> (r: Double)
    ensures
        r == reference(*state, otherwise),
{
    match state {
        Some(leg) => if leg.mark_price.gt(Double { bits: ZERO }) {
            leg.mark_price
        } else {
            otherwise
        },
        None => otherwise,
    }
}

/// Lifting one leg to its target with market orders.
pub struct AlignRun {
    pub leg: Leg,
    pub order_side: String,
    pub target: Double,
    pub tolerance: Double,
    pub max_slippage_bps: u32,
    pub state: Option<PositionLeg>,
    pub attempts: u8,
    pub anomalies: u8,
    pub reference: Double,
    /// Whether an order is under way.
    pub sent: bool,
    pub orders: Vec<OrderExecution>,
}

/// The next step of lifting a leg.
pub enum AlignStep {
    /// Look at the leg.
    Query,
    /// Send this order.
    Place(OrderPlan),
    /// Look at the leg once more; then it is done.
    FinalQuery,
}

/// What looking at a leg brought: the leg, that there is none, or nothing.
pub enum Sight {
    Seen(Option<PositionLeg>),
    Unknown,
}

impl AlignRun {
    /// Every order that was kept, and every anomaly, had an attempt of its own.
    pub open spec fn wf(self) -> bool {
        let open: int = if self.sent {
            1
        } else {
            0
        };
        &&& self.anomalies + open <= self.attempts <= MAX_RECONCILIATION_ATTEMPTS
        &&& self.orders@.len() + open <= self.attempts
    }

    /// Whether to look again, or for the last time.
    pub open spec fn goes_on(self, step: AlignStep) -> bool {
        if self.attempts < MAX_RECONCILIATION_ATTEMPTS {
            step is Query
        } else {
            step is FinalQuery
        }
    }

    pub fn new(leg: Leg, order_side: String, target: Double, tolerance: Double, max_slippage_bps: u32) -> (run:
        AlignRun)
        ensures
            run.wf(),
            run.leg == leg,
            run.order_side == order_side,
            run.target == target,
            run.tolerance == tolerance,
            run.max_slippage_bps == max_slippage_bps,
            run.state is None,
            run.attempts == 0,
            run.anomalies == 0,
            !run.sent,
            run.orders@ == Seq::<OrderExecution>::empty(),
    {
        AlignRun {
            leg,
            order_side,
            target,
            tolerance,
            max_slippage_bps,
            state: None,
            attempts: 0,
            anomalies: 0,
            reference: Double { bits: ZERO },
            sent: false,
            orders: Vec::new(),
        }
    }

    fn proceed(&self) -> (step: AlignStep)
        ensures
            self.goes_on(step),
    {
        if self.attempts < MAX_RECONCILIATION_ATTEMPTS {
            AlignStep::Query
        } else {
            AlignStep::FinalQuery
        }
    }

    /// Whether the leg is an order away from its target.
    pub open spec fn falls_short(self, state: Option<PositionLeg>) -> bool {
        !self.target.sub_spec(notional_or_zero(state)).le_spec(self.tolerance)
    }

    /// The price that a missing amount is ordered at.
    pub open spec fn order_reference(self, state: Option<PositionLeg>) -> Double {
        reference(
            state,
            if self.order_side@ == "Buy"@ {
                self.leg.ask
            } else {
                self.leg.bid
            },
        )
    }

    /// How much is ordered to reach the target.
    pub open spec fn missing_quantity(self, state: Option<PositionLeg>) -> Double {
        floored(
            self.target.sub_spec(notional_or_zero(state)).div_spec(self.order_reference(state)),
            self.leg.qty_step,
        )
    }

    /// Decides about what was seen of the leg.
    pub fn on_state(&mut self, sight: Sight) -> (step: AlignStep)
        requires
            old(self).wf(),
            !old(self).sent,
            old(self).attempts < MAX_RECONCILIATION_ATTEMPTS,
        ensures
            final(self).wf(),
            match sight {
                Sight::Unknown => {
                    &&& *final(self) == (AlignRun {
                        attempts: (old(self).attempts + 1) as u8,
                        anomalies: (old(self).anomalies + 1) as u8,
                        ..*old(self)
                    })
                    &&& final(self).goes_on(step)
                },
                Sight::Seen(state) => {
                    let quantity = old(self).missing_quantity(state);
                    let price = old(self).order_reference(state);
                    if !old(self).falls_short(state) {
                        &&& *final(self) == (AlignRun { state, ..*old(self) })
                        &&& step is FinalQuery
                    } else if quantity.le_spec(Double { bits: ZERO }) {
                        &&& *final(self) == (AlignRun {
                            state,
                            attempts: (old(self).attempts + 1) as u8,
                            anomalies: (old(self).anomalies + 1) as u8,
                            reference: price,
                            ..*old(self)
                        })
                        &&& step is FinalQuery
                    } else {
                        &&& *final(self) == (AlignRun {
                            state,
                            attempts: (old(self).attempts + 1) as u8,
                            reference: price,
                            sent: true,
                            ..*old(self)
                        })
                        &&& step matches AlignStep::Place(plan)
                        &&& plans(plan, old(self).leg, old(self).order_side@, quantity, false, None)
                    }
                },
            },
    {
        match sight {
            Sight::Unknown => {
                self.attempts = self.attempts + 1;
                self.anomalies = self.anomalies + 1;
                self.proceed()
            },
            Sight::Seen(state) => {
                let missing = self.target.sub(optional_notional(&state));
                if missing.le(self.tolerance) {
                    self.state = state;
                    return AlignStep::FinalQuery;
                }
                let otherwise = if same(self.order_side.as_str(), "Buy") {
                    self.leg.ask
                } else {
                    self.leg.bid
                };
                let price = reference_price(&state, otherwise);
                self.state = state;
                self.reference = price;
                self.attempts = self.attempts + 1;
                let quantity = floor_step(missing.div(price), self.leg.qty_step);
                if quantity.le(Double { bits: ZERO }) {
                    self.anomalies = self.anomalies + 1;
                    return AlignStep::FinalQuery;
                }
                self.sent = true;
                AlignStep::Place(market_order(&self.leg, self.order_side.as_str(), quantity, false))
            },
        }
    }

    /// Takes in what came of an order.
    pub fn on_order(&mut self, order: Option<OrderExecution>) -> (step: AlignStep)
        requires
            old(self).wf(),
            old(self).sent,
        ensures
            final(self).wf(),
            final(self).goes_on(step),
            match order {
                Some(o) => {
                    let fine = within_slippage(
                        o,
                        old(self).reference,
                        old(self).order_side@ == "Buy"@,
                        old(self).max_slippage_bps,
                    );
                    &&& *final(self) == (AlignRun {
                        anomalies: if fine {
                            old(self).anomalies
                        } else {
                            (old(self).anomalies + 1) as u8
                        },
                        sent: false,
                        orders: final(self).orders,
                        ..*old(self)
                    })
                    &&& final(self).orders@ == old(self).orders@.push(o)
                },
                None => *final(self) == (AlignRun {
                    anomalies: (old(self).anomalies + 1) as u8,
                    sent: false,
                    ..*old(self)
                }),
            },
    {
        self.sent = false;
        match order {
            Some(o) => {
                let is_buy: bool = same(self.order_side.as_str(), "Buy");
                if ensure_slippage(&o, self.reference, is_buy, self.max_slippage_bps).is_err() {
                    self.anomalies = self.anomalies + 1;
                }
                self.orders.push(o);
            },
            None => {
                self.anomalies = self.anomalies + 1;
            },
        }
        self.proceed()
    }

    /// Takes in the last look at the leg.
    pub fn on_final(&mut self, sight: Sight)
        requires
            old(self).wf(),
            !old(self).sent,
        ensures
            final(self).orders@.len() <= final(self).attempts <= MAX_RECONCILIATION_ATTEMPTS,
            match sight {
                Sight::Unknown => *final(self) == (AlignRun {
                    anomalies: (old(self).anomalies + 1) as u8,
                    ..*old(self)
                }),
                Sight::Seen(state) => *final(self) == (AlignRun {
                    state,
                    anomalies: if old(self).tolerance.lt_spec(
                        old(self).target.sub_spec(notional_or_zero(state)),
                    ) {
                        (old(self).anomalies + 1) as u8
                    } else {
                        old(self).anomalies
                    },
                    ..*old(self)
                }),
            },
    {
        match sight {
            Sight::Unknown => {
                self.anomalies = self.anomalies + 1;
            },
            Sight::Seen(state) => {
                if self.target.sub(optional_notional(&state)).gt(self.tolerance) {
                    self.anomalies = self.anomalies + 1;
                }
                self.state = state;
            },
        }
    }
}

/// Cutting the larger leg down to the smaller one with reduce-only orders.
pub struct EvenRun {
    pub long_leg: Leg,
    pub short_leg: Leg,
    pub long: Option<PositionLeg>,
    pub short: Option<PositionLeg>,
    pub attempts: u8,
    pub anomalies: u8,
    pub empty_checks: u8,
    /// Whether an order is under way.
    pub sent: bool,
    pub orders: Vec<OrderExecution>,
}

/// The next step of evening out two legs.
pub enum EvenStep {
    /// Look at both legs, after a while.
    Query { after_millis: u64 },
    /// Send this order.
    Place(OrderPlan),
    /// Look at both legs once more; then it is done.
    FinalQuery,
}

impl EvenRun {
    /// Every order that was kept, and every anomaly, had an attempt of its own.
    pub open spec fn wf(self) -> bool {
        let open: int = if self.sent {
            1
        } else {
            0
        };
        &&& self.anomalies + open <= self.attempts <= MAX_RECONCILIATION_ATTEMPTS
        &&& self.orders@.len() + open <= self.attempts
        &&& self.empty_checks <= POSITION_SETTLEMENT_CHECKS
    }

    pub open spec fn goes_on(self, step: EvenStep) -> bool {
        if self.attempts < MAX_RECONCILIATION_ATTEMPTS {
            step == (EvenStep::Query { after_millis: 0 })
        } else {
            step is FinalQuery
        }
    }

    pub fn new(long_leg: Leg, short_leg: Leg, long: Option<PositionLeg>, short: Option<PositionLeg>) -> (run:
        EvenRun)
        ensures
            run.wf(),
            run.long_leg == long_leg,
            run.short_leg == short_leg,
            run.long == long,
            run.short == short,
            run.attempts == 0,
            run.anomalies == 0,
            run.empty_checks == 0,
            !run.sent,
            run.orders@ == Seq::<OrderExecution>::empty(),
    {
        EvenRun {
            long_leg,
            short_leg,
            long,
            short,
            attempts: 0,
            anomalies: 0,
            empty_checks: 0,
            sent: false,
            orders: Vec::new(),
        }
    }

    fn proceed(&self) -> (step: EvenStep)
        ensures
            self.goes_on(step),
    {
        if self.attempts < MAX_RECONCILIATION_ATTEMPTS {
            EvenStep::Query { after_millis: 0 }
        } else {
            EvenStep::FinalQuery
        }
    }

    /// Whether both legs are there and hedge each other.
    pub open spec fn hedged(long: Option<PositionLeg>, short: Option<PositionLeg>) -> bool {
        long is Some && short is Some && !mismatched(
            notional(long->0),
            notional(short->0),
            Double { bits: POSITION_RECONCILIATION_TOLERANCE_RATIO },
        )
    }

    /// Whether nothing is there.
    pub open spec fn empty(long: Option<PositionLeg>, short: Option<PositionLeg>) -> bool {
        let epsilon = Double { bits: EPSILON };
        !(long is Some && short is Some) && notional_or_zero(long).le_spec(epsilon) && notional_or_zero(
            short,
        ).le_spec(epsilon)
    }

    /// Whether the long leg is the larger one.
    pub open spec fn long_is_larger(long: Option<PositionLeg>, short: Option<PositionLeg>) -> bool {
        notional_or_zero(short).lt_spec(notional_or_zero(long))
    }

    /// By how much the larger leg is cut.
    pub open spec fn excess_quantity(self, long: Option<PositionLeg>, short: Option<PositionLeg>) -> Double {
        let difference = notional_or_zero(long).sub_spec(notional_or_zero(short)).abs_spec();
        if Self::long_is_larger(long, short) {
            floored(difference.div_spec(reference(long, self.long_leg.mark)), self.long_leg.qty_step)
        } else {
            floored(difference.div_spec(reference(short, self.short_leg.mark)), self.short_leg.qty_step)
        }
    }

    /// Decides about what was seen of the two legs.
    pub fn on_states(&mut self, long: Sight, short: Sight) -> (step: EvenStep)
        requires
            old(self).wf(),
            !old(self).sent,
            old(self).attempts < MAX_RECONCILIATION_ATTEMPTS,
            old(self).empty_checks < POSITION_SETTLEMENT_CHECKS,
        ensures
            final(self).wf(),
            match (long, short) {
                (Sight::Seen(l), Sight::Seen(s)) => {
                    let seen = EvenRun { long: l, short: s, ..*old(self) };
                    let quantity = old(self).excess_quantity(l, s);
                    if Self::hedged(l, s) {
                        step is FinalQuery && *final(self) == seen
                    } else if Self::empty(l, s) {
                        &&& *final(self) == (EvenRun {
                            empty_checks: (old(self).empty_checks + 1) as u8,
                            ..seen
                        })
                        &&& if old(self).empty_checks + 1 >= POSITION_SETTLEMENT_CHECKS {
                            step is FinalQuery
                        } else {
                            step == (EvenStep::Query { after_millis: 250 })
                        }
                    } else if quantity.le_spec(Double { bits: ZERO }) {
                        &&& *final(self) == (EvenRun {
                            attempts: (old(self).attempts + 1) as u8,
                            anomalies: (old(self).anomalies + 1) as u8,
                            ..seen
                        })
                        &&& final(self).goes_on(step)
                    } else {
                        &&& *final(self) == (EvenRun {
                            attempts: (old(self).attempts + 1) as u8,
                            sent: true,
                            ..seen
                        })
                        &&& step matches EvenStep::Place(plan)
                        &&& if Self::long_is_larger(l, s) {
                            plans(plan, old(self).long_leg, "Sell"@, quantity, true, None)
                        } else {
                            plans(plan, old(self).short_leg, "Buy"@, quantity, true, None)
                        }
                    }
                },
                _ => {
                    &&& *final(self) == (EvenRun {
                        attempts: (old(self).attempts + 1) as u8,
                        anomalies: (old(self).anomalies + 1) as u8,
                        ..*old(self)
                    })
                    &&& final(self).goes_on(step)
                },
            },
    {
        match (long, short) {
            (Sight::Seen(l), Sight::Seen(s)) => {
                let epsilon = Double { bits: EPSILON };
                let long_notional = optional_notional(&l);
                let short_notional = optional_notional(&s);
                let hedged: bool = match (&l, &s) {
                    (Some(a), Some(b)) => !hedge_notional_mismatch_exceeds(
                        a,
                        b,
                        Double { bits: POSITION_RECONCILIATION_TOLERANCE_RATIO },
                    ),
                    _ => false,
                };
                let paired: bool = l.is_some() && s.is_some();
                let long_reference = reference_price(&l, self.long_leg.mark);
                let short_reference = reference_price(&s, self.short_leg.mark);
                self.long = l;
                self.short = s;
                if hedged {
                    return EvenStep::FinalQuery;
                }
                if !paired && long_notional.le(epsilon) && short_notional.le(epsilon) {
                    self.empty_checks = self.empty_checks + 1;
                    if self.empty_checks >= POSITION_SETTLEMENT_CHECKS {
                        return EvenStep::FinalQuery;
                    }
                    return EvenStep::Query { after_millis: 250 };
                }
                let difference = long_notional.sub(short_notional).abs();
                self.attempts = self.attempts + 1;
                if long_notional.gt(short_notional) {
                    let quantity = floor_step(difference.div(long_reference), self.long_leg.qty_step);
                    if quantity.le(Double { bits: ZERO }) {
                        self.anomalies = self.anomalies + 1;
                        return self.proceed();
                    }
                    self.sent = true;
                    EvenStep::Place(market_order(&self.long_leg, "Sell", quantity, true))
                } else {
                    let quantity = floor_step(difference.div(short_reference), self.short_leg.qty_step);
                    if quantity.le(Double { bits: ZERO }) {
                        self.anomalies = self.anomalies + 1;
                        return self.proceed();
                    }
                    self.sent = true;
                    EvenStep::Place(market_order(&self.short_leg, "Buy", quantity, true))
                }
            },
            _ => {
                self.attempts = self.attempts + 1;
                self.anomalies = self.anomalies + 1;
                self.proceed()
            },
        }
    }

    /// Takes in what came of an order.
    pub fn on_order(&mut self, order: Option<OrderExecution>) -> (step: EvenStep)
        requires
            old(self).wf(),
            old(self).sent,
        ensures
            final(self).wf(),
            final(self).goes_on(step),
            match order {
                Some(o) => {
                    &&& *final(self) == (EvenRun { sent: false, orders: final(self).orders, ..*old(self) })
                    &&& final(self).orders@ == old(self).orders@.push(o)
                },
                None => *final(self) == (EvenRun {
                    anomalies: (old(self).anomalies + 1) as u8,
                    sent: false,
                    ..*old(self)
                }),
            },
    {
        self.sent = false;
        match order {
            Some(o) => self.orders.push(o),
            None => {
                self.anomalies = self.anomalies + 1;
            },
        }
        self.proceed()
    }

    /// Takes in the last look at the two legs.
    pub fn on_final(&mut self, long: Sight, short: Sight)
        requires
            old(self).wf(),
            !old(self).sent,
        ensures
            final(self).orders@.len() <= final(self).attempts <= MAX_RECONCILIATION_ATTEMPTS,
            *final(self) == (EvenRun {
                long: match long {
                    Sight::Seen(state) => state,
                    Sight::Unknown => old(self).long,
                },
                short: match short {
                    Sight::Seen(state) => state,
                    Sight::Unknown => old(self).short,
                },
                anomalies: (old(self).anomalies + (if long is Unknown {
                    1int
                } else {
                    0int
                }) + (if short is Unknown {
                    1int
                } else {
                    0int
                })) as u8,
                ..*old(self)
            }),
    {
        match long {
            Sight::Seen(state) => {
                self.long = state;
            },
            Sight::Unknown => {
                self.anomalies = self.anomalies + 1;
            },
        }
        match short {
            Sight::Seen(state) => {
                self.short = state;
            },
            Sight::Unknown => {
                self.anomalies = self.anomalies + 1;
            },
        }
    }
}

} // verus!
