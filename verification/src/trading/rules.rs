//! Rules that close a position once its yield stays low.

use crate::failure::{Failure, Reason};
use crate::models::{AutoCloseRule, Position, TradeResponse};
use crate::num::constants::{HALF, HUNDRED, HUNDRED_THOUSAND, MILLION, MINUS_HUNDRED_THOUSAND, SECONDS_PER_HOUR, TEN, ZERO};
use crate::num::Double;
use crate::sorting::{is_stable_order, stable_order};
use crate::text::same;
use crate::trading::amounts::{auto_close_reduction, close_batch};
use crate::trading::live::{is_within, plain, within};
use crate::trading::service::TradingService;
use crate::trading::books::{adds, lemma_adds};
use vstd::prelude::*;

verus! {

/// How many low readings in a row set a rule off.
pub const LOW_READINGS_NEEDED: u32 = 3;

/// The place of a rule.
pub open spec fn rule_at(rules: Seq<AutoCloseRule>, id: Seq<char>) -> Option<int>
    decreases rules.len(),
{
    if rules.len() == 0 {
        None
    } else if rules[0].id@ == id {
        Some(0)
    } else {
        match rule_at(rules.drop_first(), id) {
            Some(i) => Some(i + 1),
            None => None,
        }
    }
}

pub fn find_rule(rules: &Vec<AutoCloseRule>, id: &str) -> (r: Option<usize>)
    ensures
        match r {
            Some(i) => i < rules@.len() && rule_at(rules@, id@) == Some(i as int),
            None => rule_at(rules@, id@) is None,
        },
{
    let mut i: usize = 0;
    proof {
        assert(rules@.skip(0) =~= rules@);
    }
    while i < rules.len()
        invariant
            i <= rules@.len(),
            rule_at(rules@, id@) == match rule_at(rules@.skip(i as int), id@) {
                Some(j) => Some(j + i),
                None => None,
            },
        decreases rules@.len() - i,
    {
        proof {
            assert(rules@.skip(i as int)[0] == rules@[i as int]);
            assert(rules@.skip(i as int).drop_first() =~= rules@.skip(i as int + 1));
        }
        if same(rules[i].id.as_str(), id) {
            return Some(i);
        }
        i = i + 1;
    }
    None
}

/// The rules with one put in: in the place of the one with its identifier, or
/// at the end.
pub open spec fn placed(rules: Seq<AutoCloseRule>, rule: AutoCloseRule) -> Seq<AutoCloseRule> {
    match rule_at(rules, rule.id@) {
        Some(i) => rules.update(i, rule),
        None => rules.push(rule),
    }
}

fn place(rules: &mut Vec<AutoCloseRule>, rule: AutoCloseRule)
    ensures
        final(rules)@ == placed(old(rules)@, rule),
{
    match find_rule(rules, rule.id.as_str()) {
        Some(i) => {
            rules.set(i, rule);
        },
        None => {
            rules.push(rule);
        },
    }
}

/// Whether a rule is another one with its status and the time of its last
/// change new.
pub open spec fn marked(new: AutoCloseRule, old: AutoCloseRule, status: Seq<char>, now: i64) -> bool {
    &&& new == (AutoCloseRule { status: new.status, updated_at: now, ..old })
    &&& new.status@ == status
}

pub fn mark(rule: &mut AutoCloseRule, status: &str, now: i64)
    ensures
        marked(*final(rule), *old(rule), status@, now),
{
    rule.status = status.to_owned();
    rule.updated_at = now;
}

/// Whether a rule was being carried out.
pub open spec fn in_flight(rule: AutoCloseRule) -> bool {
    rule.status@ == "triggered"@ || rule.status@ == "closing"@
}

/// Whether a rule is one that was stored, armed again where it was being
/// carried out.
pub open spec fn rearms(new: AutoCloseRule, stored: AutoCloseRule) -> bool {
    if in_flight(stored) {
        new == (AutoCloseRule { status: new.status, ..stored }) && new.status@ == "armed"@
    } else {
        new == stored
    }
}

/// Whether rules are those that were stored, armed again where they were being
/// carried out; of several with one identifier the last counts.
pub open spec fn rearmed(new: Seq<AutoCloseRule>, stored: Seq<AutoCloseRule>) -> bool
    decreases stored.len(),
{
    if stored.len() == 0 {
        new == Seq::<AutoCloseRule>::empty()
    } else {
        exists|before: Seq<AutoCloseRule>, last: AutoCloseRule|
            rearmed(before, stored.drop_last()) && rearms(last, stored.last()) && new == #[trigger] placed(
                before,
                last,
            )
    }
}

/// Takes up stored rules.
pub fn rearm(stored: &Vec<AutoCloseRule>) -> (rules: Vec<AutoCloseRule>)
    ensures
        rearmed(rules@, stored@),
{
    let mut rules: Vec<AutoCloseRule> = Vec::new();
    let mut i: usize = 0;
    proof {
        assert(stored@.take(0) =~= Seq::<AutoCloseRule>::empty());
        assert(rules@ =~= Seq::<AutoCloseRule>::empty());
    }
    while i < stored.len()
        invariant
            i <= stored@.len(),
            rearmed(rules@, stored@.take(i as int)),
        decreases stored@.len() - i,
    {
        let mut rule = stored[i].clone();
        if same(rule.status.as_str(), "triggered") || same(rule.status.as_str(), "closing") {
            rule.status = "armed".to_owned();
        }
        let ghost before = rules@;
        let ghost last = rule;
        let ghost next = stored@.take(i as int + 1);
        place(&mut rules, rule);
        proof {
            assert(next.drop_last() =~= stored@.take(i as int));
            assert(next.last() == stored@[i as int]);
            assert(rearms(last, next.last()));
            assert(rearmed(before, next.drop_last()));
            assert(rules@ == placed(before, last));
        }
        i = i + 1;
    }
    proof {
        assert(stored@.take(stored@.len() as int) =~= stored@);
    }
    rules
}

/// The first position of an identifier.
pub open spec fn position_at(positions: Seq<Position>, id: Seq<char>) -> Option<int>
    decreases positions.len(),
{
    if positions.len() == 0 {
        None
    } else if positions[0].id@ == id {
        Some(0)
    } else {
        match position_at(positions.drop_first(), id) {
            Some(i) => Some(i + 1),
            None => None,
        }
    }
}

pub fn find_position(positions: &Vec<Position>, id: &str) -> (r: Option<usize>)
    ensures
        match r {
            Some(i) => i < positions@.len() && position_at(positions@, id@) == Some(i as int),
            None => position_at(positions@, id@) is None,
        },
{
    let mut i: usize = 0;
    proof {
        assert(positions@.skip(0) =~= positions@);
    }
    while i < positions.len()
        invariant
            i <= positions@.len(),
            position_at(positions@, id@) == match position_at(positions@.skip(i as int), id@) {
                Some(j) => Some(j + i),
                None => None,
            },
        decreases positions@.len() - i,
    {
        proof {
            assert(positions@.skip(i as int)[0] == positions@[i as int]);
            assert(positions@.skip(i as int).drop_first() =~= positions@.skip(i as int + 1));
        }
        if same(positions[i].id.as_str(), id) {
            return Some(i);
        }
        i = i + 1;
    }
    None
}

/// A rule just set up for a position.
pub open spec fn is_new_rule(
    rule: AutoCloseRule,
    position: Position,
    threshold: Double,
    order_notional: Double,
    interval: Double,
    id: String,
    now: i64,
) -> bool {
    &&& rule.id == id
    &&& rule.position_id == position.id
    &&& rule.token == position.token
    &&& rule.threshold_apy_percent == threshold
    &&& rule.order_notional_usdt == order_notional
    &&& rule.interval_seconds == interval
    &&& rule.status@ == "armed"@
    &&& rule.current_apy_percent is None
    &&& rule.consecutive_low_readings == 0
    &&& rule.completed_notional_usdt == (Double { bits: ZERO })
    &&& rule.created_at == now
    &&& rule.updated_at == now
    &&& rule.triggered_at is None
    &&& rule.error is None
}

/// Whether the armed rules of a position have given way, and no others.
pub open spec fn superseded(
    new: Seq<AutoCloseRule>,
    old: Seq<AutoCloseRule>,
    position_id: Seq<char>,
    now: i64,
) -> bool {
    &&& new.len() == old.len()
    &&& forall|i: int|
        0 <= i < old.len() ==> if old[i].position_id@ == position_id && old[i].status@ == "armed"@ {
            marked(#[trigger] new[i], old[i], "replaced"@, now)
        } else {
            new[i] == old[i]
        }
}

/// One rule after a look at the positions.
pub open spec fn evaluated(new: AutoCloseRule, old: AutoCloseRule, positions: Seq<Position>, now: i64) -> bool {
    if old.status@ != "armed"@ {
        new == old
    } else {
        match position_at(positions, old.position_id@) {
            None => marked(new, old, "completed"@, now),
            Some(i) => match positions[i].current_apy {
                None => new == (AutoCloseRule {
                    current_apy_percent: None,
                    consecutive_low_readings: 0,
                    updated_at: now,
                    ..old
                }),
                Some(apy) => {
                    let percent = apy.mul_spec(Double { bits: HUNDRED });
                    let readings = low_readings(old, percent);
                    let read = AutoCloseRule {
                        current_apy_percent: Some(percent),
                        consecutive_low_readings: readings,
                        updated_at: now,
                        ..old
                    };
                    if readings >= LOW_READINGS_NEEDED {
                        &&& new == (AutoCloseRule {
                            status: new.status,
                            triggered_at: Some(now),
                            ..read
                        })
                        &&& new.status@ == "triggered"@
                    } else {
                        new == read
                    }
                },
            },
        }
    }
}

/// The low readings in a row after one more reading.
pub open spec fn low_readings(rule: AutoCloseRule, percent: Double) -> u32 {
    if percent.lt_spec(rule.threshold_apy_percent) {
        if rule.consecutive_low_readings < u32::MAX {
            (rule.consecutive_low_readings + 1) as u32
        } else {
            u32::MAX
        }
    } else {
        0
    }
}

/// Whether an armed rule was set off.
pub open spec fn set_off(new: AutoCloseRule, old: AutoCloseRule) -> bool {
    old.status@ == "armed"@ && new.status@ == "triggered"@
}

/// The rules that were set off.
pub open spec fn claimed(new: Seq<AutoCloseRule>, old: Seq<AutoCloseRule>) -> Seq<AutoCloseRule>
    decreases new.len(),
{
    if new.len() == 0 {
        Seq::empty()
    } else {
        let before = claimed(new.drop_last(), old.drop_last());
        if set_off(new.last(), old.last()) {
            before.push(new.last())
        } else {
            before
        }
    }
}

/// Looks at one rule.
fn evaluate(rule: &mut AutoCloseRule, positions: &Vec<Position>, now: i64) -> (triggered: bool)
    ensures
        evaluated(*final(rule), *old(rule), positions@, now),
        triggered == set_off(*final(rule), *old(rule)),
{
    proof {
        reveal_strlit("armed");
        reveal_strlit("completed");
        reveal_strlit("triggered");
        assert("armed"@.len() == 5);
        assert("completed"@[0] == 'c');
        assert("triggered"@[0] == 't');
    }
    if !same(rule.status.as_str(), "armed") {
        return false;
    }
    let found = match find_position(positions, rule.position_id.as_str()) {
        Some(i) => &positions[i],
        None => {
            mark(rule, "completed", now);
            return false;
        },
    };
    match found.current_apy {
        None => {
            rule.current_apy_percent = None;
            rule.consecutive_low_readings = 0;
            rule.updated_at = now;
            false
        },
        Some(apy) => {
            let percent = apy.mul(Double { bits: HUNDRED });
            rule.current_apy_percent = Some(percent);
            if percent.lt(rule.threshold_apy_percent) {
                if rule.consecutive_low_readings < u32::MAX {
                    rule.consecutive_low_readings = rule.consecutive_low_readings + 1;
                }
            } else {
                rule.consecutive_low_readings = 0;
            }
            rule.updated_at = now;
            if rule.consecutive_low_readings >= LOW_READINGS_NEEDED {
                rule.status = "triggered".to_owned();
                rule.triggered_at = Some(now);
                true
            } else {
                false
            }
        },
    }
}

impl TradingService {
    /// Whether nothing but the rules differs.
    pub open spec fn only_rules(self, old: TradingService) -> bool {
        self == (TradingService { auto_close_rules: self.auto_close_rules, ..old })
    }

    /// Sets up a rule for a position, in place of the armed ones that it has.
    pub fn set_auto_close(
        &mut self,
        position_id: &str,
        threshold_apy_percent: Double,
        order_notional_usdt: Double,
        interval_seconds: Double,
        positions: &Vec<Position>,
        id: String,
        now: i64,
    ) -> (r: Result<AutoCloseRule, Failure>)
        ensures
            final(self).only_rules(*old(self)),
            r is Err ==> *final(self) == *old(self),
            if !within(threshold_apy_percent, MINUS_HUNDRED_THOUSAND, HUNDRED_THOUSAND) {
                r == Err::<AutoCloseRule, Failure>(plain(Reason::ThresholdRange))
            } else if !within(order_notional_usdt, TEN, MILLION) {
                r == Err::<AutoCloseRule, Failure>(plain(Reason::OrderNotionalRange))
            } else if !within(interval_seconds, HALF, SECONDS_PER_HOUR) {
                r == Err::<AutoCloseRule, Failure>(plain(Reason::IntervalRange))
            } else if position_at(positions@, position_id@) is None {
                r == Err::<AutoCloseRule, Failure>(plain(Reason::PositionNotFound))
            } else {
                &&& r matches Ok(rule)
                &&& is_new_rule(
                    rule,
                    positions@[position_at(positions@, position_id@)->0],
                    threshold_apy_percent,
                    order_notional_usdt,
                    interval_seconds,
                    id,
                    now,
                )
                &&& exists|mid: Seq<AutoCloseRule>| #[trigger]
                    superseded(mid, old(self).auto_close_rules@, rule.position_id@, now)
                        && final(self).auto_close_rules@ == placed(mid, rule)
            },
    {
        if !is_within(threshold_apy_percent, MINUS_HUNDRED_THOUSAND, HUNDRED_THOUSAND) {
            return Err(Failure::new(Reason::ThresholdRange));
        }
        if !is_within(order_notional_usdt, TEN, MILLION) {
            return Err(Failure::new(Reason::OrderNotionalRange));
        }
        if !is_within(interval_seconds, HALF, SECONDS_PER_HOUR) {
            return Err(Failure::new(Reason::IntervalRange));
        }
        let position = match find_position(positions, position_id) {
            Some(i) => &positions[i],
            None => return Err(Failure::new(Reason::PositionNotFound)),
        };
        let rule = AutoCloseRule {
            id,
            position_id: position.id.clone(),
            token: position.token.clone(),
            threshold_apy_percent,
            order_notional_usdt,
            interval_seconds,
            status: "armed".to_owned(),
            current_apy_percent: None,
            consecutive_low_readings: 0,
            completed_notional_usdt: Double { bits: ZERO },
            created_at: now,
            updated_at: now,
            triggered_at: None,
            error: None,
        };
        let ghost before = self.auto_close_rules@;
        let mut i: usize = 0;
        while i < self.auto_close_rules.len()
            invariant
                i <= self.auto_close_rules@.len(),
                self.auto_close_rules@.len() == before.len(),
                self.only_rules(*old(self)),
                forall|k: int|
                    0 <= k < i ==> if before[k].position_id@ == rule.position_id@ && before[k].status@
                        == "armed"@ {
                        marked(#[trigger] self.auto_close_rules@[k], before[k], "replaced"@, now)
                    } else {
                        self.auto_close_rules@[k] == before[k]
                    },
                forall|k: int| i <= k < before.len() ==> #[trigger] self.auto_close_rules@[k] == before[k],
            decreases self.auto_close_rules@.len() - i,
        {
            let existing = &self.auto_close_rules[i];
            if same(existing.position_id.as_str(), rule.position_id.as_str()) && same(
                existing.status.as_str(),
                "armed",
            ) {
                let mut replaced = existing.clone();
                mark(&mut replaced, "replaced", now);
                self.auto_close_rules.set(i, replaced);
            }
            i = i + 1;
        }
        let ghost mid = self.auto_close_rules@;
        let result = rule.clone();
        place(&mut self.auto_close_rules, rule);
        proof {
            assert(superseded(mid, old(self).auto_close_rules@, result.position_id@, now));
        }
        Ok(result)
    }

    /// Whether rules are those of the desk, the newest first.
    pub open spec fn lists_rules(self, rules: Seq<AutoCloseRule>, order: Seq<usize>) -> bool {
        &&& is_stable_order(
            order,
            Seq::new(
                self.auto_close_rules@.len(),
                |i: int| (-(self.auto_close_rules@[i].created_at as int)) as i128,
            ),
        )
        &&& rules.len() == order.len()
        &&& forall|i: int|
            0 <= i < rules.len() ==> #[trigger] rules[i] == self.auto_close_rules@[order[i] as int]
    }

    /// The rules, the newest first.
    pub fn auto_close_rules(&self) -> (rules: Vec<AutoCloseRule>)
        ensures
            exists|order: Seq<usize>| self.lists_rules(rules@, order),
    {
        let mut keys: Vec<i128> = Vec::new();
        let mut i: usize = 0;
        while i < self.auto_close_rules.len()
            invariant
                i <= self.auto_close_rules@.len(),
                keys@.len() == i,
                forall|k: int|
                    0 <= k < i ==> #[trigger] keys@[k] == (-(self.auto_close_rules@[k].created_at as int)) as i128,
            decreases self.auto_close_rules@.len() - i,
        {
            keys.push(-(self.auto_close_rules[i].created_at as i128));
            i = i + 1;
        }
        let order = stable_order(&keys);
        proof {
            assert(keys@ =~= Seq::new(
                self.auto_close_rules@.len(),
                |i: int| (-(self.auto_close_rules@[i].created_at as int)) as i128,
            ));
        }
        let mut rules: Vec<AutoCloseRule> = Vec::new();
        let mut k: usize = 0;
        while k < order.len()
            invariant
                k <= order@.len(),
                rules@.len() == k,
                is_stable_order(order@, keys@),
                keys@.len() == self.auto_close_rules@.len(),
                forall|i: int|
                    0 <= i < k ==> #[trigger] rules@[i] == self.auto_close_rules@[order@[i] as int],
            decreases order@.len() - k,
        {
            rules.push(self.auto_close_rules[order[k]].clone());
            k = k + 1;
        }
        proof {
            assert(self.lists_rules(rules@, order@));
        }
        rules
    }

    /// Takes an armed rule back.
    pub fn cancel_auto_close(&mut self, id: &str, now: i64) -> (r: Result<AutoCloseRule, Failure>)
        ensures
            final(self).only_rules(*old(self)),
            match rule_at(old(self).auto_close_rules@, id@) {
                None => r == Err::<AutoCloseRule, Failure>(plain(Reason::RuleNotFound)) && *final(self)
                    == *old(self),
                Some(i) => if old(self).auto_close_rules@[i].status@ != "armed"@ {
                    r == Err::<AutoCloseRule, Failure>(plain(Reason::RuleNotArmed)) && *final(self)
                        == *old(self)
                } else {
                    &&& r matches Ok(rule)
                    &&& marked(rule, old(self).auto_close_rules@[i], "cancelled"@, now)
                    &&& final(self).auto_close_rules@ == old(self).auto_close_rules@.update(i, rule)
                },
            },
    {
        let i = match find_rule(&self.auto_close_rules, id) {
            Some(i) => i,
            None => return Err(Failure::new(Reason::RuleNotFound)),
        };
        if !same(self.auto_close_rules[i].status.as_str(), "armed") {
            return Err(Failure::new(Reason::RuleNotArmed));
        }
        let mut rule = self.auto_close_rules[i].clone();
        mark(&mut rule, "cancelled", now);
        self.auto_close_rules.set(i, rule.clone());
        Ok(rule)
    }

    /// Holds every armed rule against the positions. The result holds the rules
    /// that were set off and have to be carried out.
    pub fn evaluate_auto_close_rules(&mut self, positions: &Vec<Position>, now: i64) -> (triggered: Vec<
        AutoCloseRule,
    >)
        ensures
            final(self).only_rules(*old(self)),
            final(self).auto_close_rules@.len() == old(self).auto_close_rules@.len(),
            forall|i: int|
                0 <= i < old(self).auto_close_rules@.len() ==> evaluated(
                    #[trigger] final(self).auto_close_rules@[i],
                    old(self).auto_close_rules@[i],
                    positions@,
                    now,
                ),
            triggered@ == claimed(final(self).auto_close_rules@, old(self).auto_close_rules@),
    {
        let ghost before = self.auto_close_rules@;
        let mut triggered: Vec<AutoCloseRule> = Vec::new();
        let mut i: usize = 0;
        proof {
            assert(claimed(before.take(0), before.take(0)) =~= Seq::<AutoCloseRule>::empty());
        }
        while i < self.auto_close_rules.len()
            invariant
                i <= self.auto_close_rules@.len(),
                self.auto_close_rules@.len() == before.len(),
                self.only_rules(*old(self)),
                forall|k: int|
                    0 <= k < i ==> evaluated(
                        #[trigger] self.auto_close_rules@[k],
                        before[k],
                        positions@,
                        now,
                    ),
                forall|k: int| i <= k < before.len() ==> #[trigger] self.auto_close_rules@[k] == before[k],
                triggered@ == claimed(self.auto_close_rules@.take(i as int), before.take(i as int)),
            decreases self.auto_close_rules@.len() - i,
        {
            let mut rule = self.auto_close_rules[i].clone();
            let hit: bool = evaluate(&mut rule, positions, now);
            let ghost earlier = self.auto_close_rules@.take(i as int);
            if hit {
                triggered.push(rule.clone());
            }
            self.auto_close_rules.set(i, rule);
            proof {
                let new = self.auto_close_rules@.take(i as int + 1);
                let old_part = before.take(i as int + 1);
                assert(new.drop_last() =~= earlier);
                assert(old_part.drop_last() =~= before.take(i as int));
                assert(new.last() == rule);
                assert(old_part.last() == before[i as int]);
            }
            i = i + 1;
        }
        proof {
            assert(self.auto_close_rules@.take(before.len() as int) =~= self.auto_close_rules@);
            assert(before.take(before.len() as int) =~= before);
        }
        triggered
    }
}

/// Market data that is missing never sets a rule off, and a rule is only set
/// off by the third low reading in a row or a later one.
pub proof fn lemma_trigger_needs_low_readings(
    new: AutoCloseRule,
    old: AutoCloseRule,
    positions: Seq<Position>,
    now: i64,
)
    requires
        evaluated(new, old, positions, now),
        set_off(new, old),
    ensures
        position_at(positions, old.position_id@) is Some,
        ({
            let position = positions[position_at(positions, old.position_id@)->0];
            &&& position.current_apy is Some
            &&& position.current_apy->0.mul_spec(Double { bits: HUNDRED }).lt_spec(old.threshold_apy_percent)
            &&& old.consecutive_low_readings + 1 >= LOW_READINGS_NEEDED
        }),
{
    reveal_strlit("armed");
    reveal_strlit("completed");
    reveal_strlit("triggered");
    assert("completed"@[0] == 'c');
    assert("triggered"@[0] == 't');
    assert("armed"@[0] == 'a');
}

/// A rule that was being carried out when the desk stopped is armed when it
/// starts again; every other one is as it was.
pub proof fn lemma_restart_arms(new: AutoCloseRule, stored: AutoCloseRule)
    requires
        rearms(new, stored),
    ensures
        !in_flight(new),
        in_flight(stored) ==> new.status@ == "armed"@,
        !in_flight(stored) ==> new == stored,
        new.completed_notional_usdt == stored.completed_notional_usdt,
        new.threshold_apy_percent == stored.threshold_apy_percent,
{
    reveal_strlit("armed");
    reveal_strlit("closing");
    reveal_strlit("triggered");
    assert("armed"@[0] == 'a');
    assert("closing"@[0] == 'c');
    assert("triggered"@[0] == 't');
}

/// The next step of carrying a rule out.
pub enum CloseOrder {
    /// The position is gone: the rule is done.
    Done,
    /// Reduce the position by this much.
    Reduce(Double),
    /// Close what is left.
    Close,
}

/// Decides what to do about the position of a rule that is being carried out.
pub fn next_close(rule: &mut AutoCloseRule, position: Option<&Position>, tolerance: Double, now: i64) -> (step:
    CloseOrder)
    ensures
        match position {
            None => step is Done && marked(*final(rule), *old(rule), "completed"@, now),
            Some(p) => {
                &&& *final(rule) == *old(rule)
                &&& step == (match close_batch(p.notional_usdt, old(rule).order_notional_usdt, tolerance) {
                    Some(amount) => CloseOrder::Reduce(amount),
                    None => CloseOrder::Close,
                })
            },
        },
{
    match position {
        None => {
            mark(rule, "completed", now);
            CloseOrder::Done
        },
        Some(p) => match auto_close_reduction(p.notional_usdt, rule.order_notional_usdt, tolerance) {
            Some(amount) => CloseOrder::Reduce(amount),
            None => CloseOrder::Close,
        },
    }
}

/// How much one step took off a position.
pub open spec fn taken_off(remaining: Double, response: TradeResponse) -> Double {
    if response.position.status@ == "closed"@ {
        remaining
    } else {
        remaining.sub_spec(response.position.notional_usdt).max_spec(Double { bits: ZERO })
    }
}

/// Takes in what came of one step. The result says whether the rule goes on.
pub fn on_close_order(
    rule: &mut AutoCloseRule,
    remaining: Double,
    result: Result<&TradeResponse, &Failure>,
    now: i64,
) -> (goes_on: bool)
    ensures
        match result {
            Ok(response) => {
                let closed = response.position.status@ == "closed"@;
                let progressed = AutoCloseRule {
                    completed_notional_usdt: old(rule).completed_notional_usdt.add_spec(
                        taken_off(remaining, *response),
                    ),
                    updated_at: now,
                    ..*old(rule)
                };
                &&& goes_on == !closed
                &&& adds(
                    final(rule).completed_notional_usdt,
                    old(rule).completed_notional_usdt,
                    taken_off(remaining, *response),
                )
                &&& if closed {
                    marked(*final(rule), progressed, "completed"@, now)
                } else {
                    *final(rule) == progressed
                }
            },
            Err(f) => !goes_on && gave_up(*final(rule), *old(rule), f.chain(), now),
        },
{
    match result {
        Ok(response) => {
            let closed: bool = same(response.position.status.as_str(), "closed");
            let reduced = if closed {
                remaining
            } else {
                remaining.sub(response.position.notional_usdt).max(Double { bits: ZERO })
            };
            proof {
                lemma_adds(rule.completed_notional_usdt, reduced);
            }
            rule.completed_notional_usdt = rule.completed_notional_usdt.add(reduced);
            rule.updated_at = now;
            if closed {
                mark(rule, "completed", now);
            }
            !closed
        },
        Err(f) => {
            fail_auto_close(rule, f, now);
            false
        },
    }
}

/// Whether a rule has failed with a message.
pub open spec fn gave_up(new: AutoCloseRule, old: AutoCloseRule, message: Seq<char>, now: i64) -> bool {
    &&& new == (AutoCloseRule { status: new.status, error: new.error, updated_at: now, ..old })
    &&& new.status@ == "failed"@
    &&& new.error is Some
    &&& new.error->0@ == message
}

/// Gives a rule up.
pub fn fail_auto_close(rule: &mut AutoCloseRule, failure: &Failure, now: i64)
    ensures
        gave_up(*final(rule), *old(rule), failure.chain(), now),
{
    rule.status = "failed".to_owned();
    rule.error = Some(failure.detail());
    rule.updated_at = now;
}

} // verus!
