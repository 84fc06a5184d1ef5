//! Catching up on a spread that was missed.

use crate::num::about::sized;
use crate::num::constants::{EPSILON, ZERO};
use crate::num::double::of_int;
use crate::num::Double;
use crate::trading::worth::lemma_installments_tighten;
use vstd::prelude::*;

verus! {

/// The number of batches over which a missed spread is made up for.
pub const SPREAD_RECOVERY_BATCHES: u32 = 10;

/// What past fills fell short of the agreed spread, and over how many batches
/// that is still to be made up for.
#[derive(Clone, Copy, Debug, PartialEq, Eq, Structural)]
pub struct SpreadRecovery {
    pub debt_usdt: Double,
    pub batches_remaining: u32,
}

impl SpreadRecovery {
    /// No debt.
    pub open spec fn none() -> SpreadRecovery {
        SpreadRecovery { debt_usdt: Double { bits: ZERO }, batches_remaining: 0 }
    }

    /// What the next batch has to earn on top, relative to its notional.
    pub open spec fn installment(self, next_notional: Double, available_batches: u32) -> Double {
        let installments = if self.batches_remaining < available_batches {
            self.batches_remaining
        } else {
            available_batches
        };
        let epsilon = Double { bits: EPSILON };
        if self.debt_usdt.le_spec(epsilon) || installments == 0 || next_notional.le_spec(epsilon) {
            Double { bits: ZERO }
        } else {
            self.debt_usdt.div_spec(next_notional.mul_spec(of_int(installments as int)))
        }
    }

    /// The recovery once the debt is known anew.
    pub open spec fn with_debt(self, updated: Double) -> SpreadRecovery {
        let epsilon = Double { bits: EPSILON };
        if updated.le_spec(epsilon) {
            SpreadRecovery::none()
        } else if self.debt_usdt.le_spec(epsilon) || self.debt_usdt.add_spec(epsilon).lt_spec(updated) {
            SpreadRecovery { debt_usdt: updated, batches_remaining: SPREAD_RECOVERY_BATCHES }
        } else {
            SpreadRecovery {
                debt_usdt: updated,
                batches_remaining: if self.batches_remaining <= 2 {
                    1
                } else {
                    (self.batches_remaining - 1) as u32
                },
            }
        }
    }

    /// The recovery after opening fills worth `edge` in all.
    pub open spec fn after_open(self, threshold: Double, completed: Double, edge: Double) -> SpreadRecovery {
        self.with_debt(threshold.mul_spec(completed).sub_spec(edge).max_spec(Double { bits: ZERO }))
    }

    /// The recovery after closing fills that cost `spread` in all.
    pub open spec fn after_close(self, threshold: Double, completed: Double, spread: Double) -> SpreadRecovery {
        self.with_debt(spread.sub_spec(threshold.mul_spec(completed)).max_spec(Double { bits: ZERO }))
    }

    pub fn new() -> (r: SpreadRecovery)
        ensures
            r == SpreadRecovery::none(),
    {
        SpreadRecovery { debt_usdt: Double { bits: ZERO }, batches_remaining: 0 }
    }

    /// The spread that the next opening batch has to reach.
    pub fn open_threshold(&self, threshold: Double, next_notional: Double, available_batches: u32) -> (r:
        Double)
        ensures
            r == threshold.add_spec(self.installment(next_notional, available_batches)),
            threshold.finite() && sized(self.debt_usdt, 200) && sized(next_notional, 200) && !r.nan()
                ==> threshold.le_spec(r),
    {
        proof {
            if threshold.finite() && sized(self.debt_usdt, 200) && sized(next_notional, 200) {
                lemma_installments_tighten(*self, threshold, next_notional, available_batches);
            }
        }
        threshold.add(self.installment_ratio(next_notional, available_batches))
    }

    /// The spread that the next closing batch must not exceed.
    pub fn close_threshold(&self, threshold: Double, next_notional: Double, available_batches: u32) -> (r:
        Double)
        ensures
            r == threshold.sub_spec(self.installment(next_notional, available_batches)),
            threshold.finite() && sized(self.debt_usdt, 200) && sized(next_notional, 200) && !r.nan()
                ==> r.le_spec(threshold),
    {
        proof {
            if threshold.finite() && sized(self.debt_usdt, 200) && sized(next_notional, 200) {
                lemma_installments_tighten(*self, threshold, next_notional, available_batches);
            }
        }
        threshold.sub(self.installment_ratio(next_notional, available_batches))
    }

    pub fn record_open_cumulative(
        &mut self,
        threshold: Double,
        completed_notional: Double,
        cumulative_edge_value: Double,
    )
        ensures
            *final(self) == old(self).after_open(threshold, completed_notional, cumulative_edge_value),
    {
        self.record_debt(
            threshold.mul(completed_notional).sub(cumulative_edge_value).max(Double { bits: ZERO }),
        );
    }

    pub fn record_close_cumulative(
        &mut self,
        threshold: Double,
        completed_notional: Double,
        cumulative_spread_value: Double,
    )
        ensures
            *final(self) == old(self).after_close(threshold, completed_notional, cumulative_spread_value),
    {
        self.record_debt(
            cumulative_spread_value.sub(threshold.mul(completed_notional)).max(Double { bits: ZERO }),
        );
    }

    pub fn installment_ratio(&self, next_notional: Double, available_batches: u32) -> (r: Double)
        ensures
            r == self.installment(next_notional, available_batches),
    {
        let installments: u32 = if self.batches_remaining < available_batches {
            self.batches_remaining
        } else {
            available_batches
        };
        let epsilon = Double { bits: EPSILON };
        if self.debt_usdt.le(epsilon) || installments == 0 || next_notional.le(epsilon) {
            Double { bits: ZERO }
        } else {
            self.debt_usdt.div(next_notional.mul(Double::from_int(installments as i64)))
        }
    }

    pub fn record_debt(&mut self, updated_debt: Double)
        ensures
            *final(self) == old(self).with_debt(updated_debt),
    {
        let epsilon = Double { bits: EPSILON };
        if updated_debt.le(epsilon) {
            self.debt_usdt = Double { bits: ZERO };
            self.batches_remaining = 0;
            return;
        }
        let new_adverse_fill: bool = self.debt_usdt.le(epsilon) || updated_debt.gt(
            self.debt_usdt.add(epsilon),
        );
        self.debt_usdt = updated_debt;
        self.batches_remaining = if new_adverse_fill {
            SPREAD_RECOVERY_BATCHES
        } else if self.batches_remaining <= 2 {
            1
        } else {
            self.batches_remaining - 1
        };
    }
}

/// A recovery is never spread over more than ten batches, and over none only
/// where there is no debt.
pub proof fn lemma_recovery_bounded(recovery: SpreadRecovery, updated: Double)
    requires
        recovery.batches_remaining <= SPREAD_RECOVERY_BATCHES,
    ensures
        recovery.with_debt(updated).batches_remaining <= SPREAD_RECOVERY_BATCHES,
        recovery.with_debt(updated).batches_remaining == 0 <==> updated.le_spec(Double { bits: EPSILON }),
        recovery.with_debt(updated).batches_remaining == 0 ==> recovery.with_debt(updated)
            == SpreadRecovery::none(),
{
}

} // verus!
