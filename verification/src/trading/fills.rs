//! Matching what was filled on one side with what was filled on the other.

use crate::num::constants::{EPSILON, MINUS_ZERO, ZERO};
use crate::num::double::{lemma_order_is_numeric, lemma_sub_self};
use crate::num::Double;
use vstd::prelude::*;

verus! {

/// Which leg was filled.
#[derive(Clone, Copy, Debug, PartialEq, Eq, Structural)]
pub enum GuardFillSide {
    Long,
    Short,
}

/// An opening fill that has no counterpart yet.
#[derive(Clone, Copy, Debug, PartialEq, Eq, Structural)]
pub struct GuardUnmatchedFill {
    pub notional_usdt: Double,
    pub price: Double,
}

/// A closing fill that has no counterpart yet.
#[derive(Clone, Copy, Debug, PartialEq, Eq, Structural)]
pub struct CloseUnmatchedFill {
    pub notional_usdt: Double,
    pub pnl_ratio: Double,
    pub price: Double,
}

/// The sum of the open notionals, the first one first.
pub open spec fn guard_total(fills: Seq<GuardUnmatchedFill>) -> Double
    decreases fills.len(),
{
    if fills.len() == 0 {
        Double { bits: MINUS_ZERO }
    } else {
        guard_total(fills.drop_last()).add_spec(fills.last().notional_usdt)
    }
}

pub fn unmatched_total(fills: &Vec<GuardUnmatchedFill>) -> (total: Double)
    ensures
        total == guard_total(fills@),
{
    let mut total = Double { bits: MINUS_ZERO };
    let mut i: usize = 0;
    proof {
        assert(fills@.take(0) =~= Seq::<GuardUnmatchedFill>::empty());
    }
    while i < fills.len()
        invariant
            i <= fills@.len(),
            total == guard_total(fills@.take(i as int)),
        decreases fills@.len() - i,
    {
        proof {
            assert(fills@.take(i as int + 1).drop_last() =~= fills@.take(i as int));
        }
        total = total.add(fills[i].notional_usdt);
        i = i + 1;
    }
    proof {
        assert(fills@.take(fills@.len() as int) =~= fills@);
    }
    total
}

/// The sum of the open notionals, the first one first.
pub open spec fn close_total(fills: Seq<CloseUnmatchedFill>) -> Double
    decreases fills.len(),
{
    if fills.len() == 0 {
        Double { bits: MINUS_ZERO }
    } else {
        close_total(fills.drop_last()).add_spec(fills.last().notional_usdt)
    }
}

pub fn close_unmatched_total(fills: &Vec<CloseUnmatchedFill>) -> (total: Double)
    ensures
        total == close_total(fills@),
{
    let mut total = Double { bits: MINUS_ZERO };
    let mut i: usize = 0;
    proof {
        assert(fills@.take(0) =~= Seq::<CloseUnmatchedFill>::empty());
    }
    while i < fills.len()
        invariant
            i <= fills@.len(),
            total == close_total(fills@.take(i as int)),
        decreases fills@.len() - i,
    {
        proof {
            assert(fills@.take(i as int + 1).drop_last() =~= fills@.take(i as int));
        }
        total = total.add(fills[i].notional_usdt);
        i = i + 1;
    }
    proof {
        assert(fills@.take(fills@.len() as int) =~= fills@);
    }
    total
}

/// The part that two fills have in common.
pub open spec fn common(long: Double, short: Double) -> Double {
    long.min_spec(short)
}

/// Whether nothing is left of a fill once a part of it is matched.
pub open spec fn used_up(notional: Double, amount: Double) -> bool {
    notional.sub_spec(amount).le_spec(Double { bits: EPSILON })
}

/// One of two fills is used up by what they have in common, where one of them
/// is finite.
pub proof fn lemma_one_is_used_up(long: Double, short: Double)
    requires
        !long.nan(),
        !short.nan(),
        long.finite() || short.finite(),
        long.finite() || !long.negative(),
        short.finite() || !short.negative(),
    ensures
        used_up(long, common(long, short)) || used_up(short, common(long, short)),
        common(long, short).finite(),
        used_up(long, common(long, short)) || (short.finite() && used_up(short, common(long, short))),
        long.finite() || used_up(short, common(long, short)),
        short.finite() || used_up(long, common(long, short)),
{
    let amount = common(long, short);
    if amount == long {
        if long.finite() {
            lemma_sub_self(long);
        }
    }
    if amount == short {
        if short.finite() {
            lemma_sub_self(short);
        }
    }
}

/// What is left of a fill is a number, and not minus infinity, where at least
/// as much was open as is taken.
pub proof fn lemma_rest_is_positive(notional: Double, amount: Double)
    requires
        !notional.nan(),
        notional.finite() || !notional.negative(),
        amount.finite(),
        amount.le_spec(notional),
    ensures
        !notional.sub_spec(amount).nan(),
        notional.sub_spec(amount).finite() || !notional.sub_spec(amount).negative(),
{
    if notional.finite() {
        lemma_order_is_numeric(amount, notional);
        assert(amount.neg_spec().value() == -amount.value());
    }
}

/// A notional that matching can work off: a number, and not minus infinity.
pub open spec fn open_notional(x: Double) -> bool {
    !x.nan() && (x.finite() || !x.negative())
}

/// What matching has brought about: the open fills on both sides, the matched
/// notional, and the value of the spread on it.
pub struct GuardMatch {
    pub long: Seq<GuardUnmatchedFill>,
    pub short: Seq<GuardUnmatchedFill>,
    pub matched: Double,
    pub edge: Double,
}

/// Fills are matched first come, first served: the oldest fill of one side
/// with the oldest of the other, by what both have open.
pub open spec fn matched_guard(
    long: Seq<GuardUnmatchedFill>,
    short: Seq<GuardUnmatchedFill>,
    matched: Double,
    edge: Double,
) -> GuardMatch
    decreases long.len() + short.len(),
{
    if long.len() == 0 || short.len() == 0 {
        GuardMatch { long, short, matched, edge }
    } else {
        let l = long[0];
        let s = short[0];
        let amount = common(l.notional_usdt, s.notional_usdt);
        let next_long = if used_up(l.notional_usdt, amount) {
            long.drop_first()
        } else {
            long.update(
                0,
                GuardUnmatchedFill { notional_usdt: l.notional_usdt.sub_spec(amount), price: l.price },
            )
        };
        let next_short = if used_up(s.notional_usdt, amount) {
            short.drop_first()
        } else {
            short.update(
                0,
                GuardUnmatchedFill { notional_usdt: s.notional_usdt.sub_spec(amount), price: s.price },
            )
        };
        if next_long.len() + next_short.len() < long.len() + short.len() {
            matched_guard(
                next_long,
                next_short,
                matched.add_spec(amount),
                edge.add_spec(amount.mul_spec(s.price.sub_spec(l.price)).div_spec(l.price)),
            )
        } else {
            GuardMatch { long, short, matched, edge }
        }
    }
}

/// Matching comes to an end where all notionals are finite; the first of one
/// side may have grown beyond all bounds on the way.
pub open spec fn guard_matchable(long: Seq<GuardUnmatchedFill>, short: Seq<GuardUnmatchedFill>) -> bool {
    &&& forall|i: int| 0 < i < long.len() ==> (#[trigger] long[i]).notional_usdt.finite()
    &&& forall|i: int| 0 < i < short.len() ==> (#[trigger] short[i]).notional_usdt.finite()
    &&& long.len() > 0 ==> open_notional(long[0].notional_usdt)
    &&& short.len() > 0 ==> open_notional(short[0].notional_usdt)
    &&& long.len() > 0 && short.len() > 0 ==> long[0].notional_usdt.finite()
        || short[0].notional_usdt.finite()
}

/// Matches the fills of the two legs of an opening, and reckons the spread.
pub fn match_guard_fills_with_edge(
    long: &mut Vec<GuardUnmatchedFill>,
    short: &mut Vec<GuardUnmatchedFill>,
) -> (r: (Double, Double))
    requires
        guard_matchable(old(long)@, old(short)@),
    ensures
        ({
            let zero = Double { bits: ZERO };
            let m = matched_guard(old(long)@, old(short)@, zero, zero);
            &&& final(long)@ == m.long
            &&& final(short)@ == m.short
            &&& r == (m.matched, m.edge)
        }),
        final(long)@.len() == 0 || final(short)@.len() == 0,
        guard_matchable(final(long)@, final(short)@),
{
    let zero = Double { bits: ZERO };
    let mut matched = zero;
    let mut edge_value = zero;
    let ghost goal = matched_guard(long@, short@, zero, zero);
    while long.len() > 0 && short.len() > 0
        invariant
            guard_matchable(long@, short@),
            matched_guard(long@, short@, matched, edge_value) == goal,
        decreases long@.len() + short@.len(),
    {
        let l = long[0];
        let s = short[0];
        let amount = l.notional_usdt.min(s.notional_usdt);
        let long_rest = l.notional_usdt.sub(amount);
        let short_rest = s.notional_usdt.sub(amount);
        let ghost long_before = long@;
        let ghost short_before = short@;
        proof {
            lemma_one_is_used_up(l.notional_usdt, s.notional_usdt);
            lemma_rest_is_positive(l.notional_usdt, amount);
            lemma_rest_is_positive(s.notional_usdt, amount);
        }
        matched = matched.add(amount);
        edge_value = edge_value.add(amount.mul(s.price.sub(l.price)).div(l.price));
        if long_rest.le(Double { bits: EPSILON }) {
            long.remove(0);
            proof {
                assert(long@ =~= long_before.drop_first());
            }
        } else {
            long[0] = GuardUnmatchedFill { notional_usdt: long_rest, price: l.price };
        }
        if short_rest.le(Double { bits: EPSILON }) {
            short.remove(0);
            proof {
                assert(short@ =~= short_before.drop_first());
            }
        } else {
            short[0] = GuardUnmatchedFill { notional_usdt: short_rest, price: s.price };
        }
        proof {
            assert(guard_matchable(long@, short@)) by {
                assert forall|i: int| 0 < i < long@.len() implies (
                #[trigger] long@[i]).notional_usdt.finite() by {
                    if long@.len() < long_before.len() {
                        assert(long@[i] == long_before[i + 1]);
                    } else {
                        assert(long@[i] == long_before[i]);
                    }
                }
                assert forall|i: int| 0 < i < short@.len() implies (
                #[trigger] short@[i]).notional_usdt.finite() by {
                    if short@.len() < short_before.len() {
                        assert(short@[i] == short_before[i + 1]);
                    } else {
                        assert(short@[i] == short_before[i]);
                    }
                }
                if long@.len() > 0 && long@.len() < long_before.len() {
                    assert(long@[0] == long_before[1]);
                }
                if short@.len() > 0 && short@.len() < short_before.len() {
                    assert(short@[0] == short_before[1]);
                }
            }
        }
    }
    (matched, edge_value)
}

/// What matching has brought about: the open fills on both sides, the matched
/// notional, the profit on it and the value of the spread on it.
pub struct CloseMatch {
    pub long: Seq<CloseUnmatchedFill>,
    pub short: Seq<CloseUnmatchedFill>,
    pub matched: Double,
    pub pnl: Double,
    pub spread: Double,
}

/// Fills are matched first come, first served: the oldest fill of one side
/// with the oldest of the other, by what both have open.
pub open spec fn matched_close(
    long: Seq<CloseUnmatchedFill>,
    short: Seq<CloseUnmatchedFill>,
    matched: Double,
    pnl: Double,
    spread: Double,
) -> CloseMatch
    decreases long.len() + short.len(),
{
    if long.len() == 0 || short.len() == 0 {
        CloseMatch { long, short, matched, pnl, spread }
    } else {
        let l = long[0];
        let s = short[0];
        let amount = common(l.notional_usdt, s.notional_usdt);
        let next_long = if used_up(l.notional_usdt, amount) {
            long.drop_first()
        } else {
            long.update(
                0,
                CloseUnmatchedFill { notional_usdt: l.notional_usdt.sub_spec(amount), ..l },
            )
        };
        let next_short = if used_up(s.notional_usdt, amount) {
            short.drop_first()
        } else {
            short.update(
                0,
                CloseUnmatchedFill { notional_usdt: s.notional_usdt.sub_spec(amount), ..s },
            )
        };
        if next_long.len() + next_short.len() < long.len() + short.len() {
            matched_close(
                next_long,
                next_short,
                matched.add_spec(amount),
                pnl.add_spec(amount.mul_spec(l.pnl_ratio.add_spec(s.pnl_ratio))),
                spread.add_spec(
                    amount.mul_spec(s.price.sub_spec(l.price)).div_spec(
                        l.price.max_spec(Double { bits: EPSILON }),
                    ),
                ),
            )
        } else {
            CloseMatch { long, short, matched, pnl, spread }
        }
    }
}

/// Matching comes to an end where all notionals are finite; the first of one
/// side may have grown beyond all bounds on the way.
pub open spec fn close_matchable(long: Seq<CloseUnmatchedFill>, short: Seq<CloseUnmatchedFill>) -> bool {
    &&& forall|i: int| 0 < i < long.len() ==> (#[trigger] long[i]).notional_usdt.finite()
    &&& forall|i: int| 0 < i < short.len() ==> (#[trigger] short[i]).notional_usdt.finite()
    &&& long.len() > 0 ==> open_notional(long[0].notional_usdt)
    &&& short.len() > 0 ==> open_notional(short[0].notional_usdt)
    &&& long.len() > 0 && short.len() > 0 ==> long[0].notional_usdt.finite()
        || short[0].notional_usdt.finite()
}

/// Matches the fills of the two legs of a closing, and reckons profit and spread.
pub fn match_close_fills(
    long: &mut Vec<CloseUnmatchedFill>,
    short: &mut Vec<CloseUnmatchedFill>,
) -> (r: (Double, Double, Double))
    requires
        close_matchable(old(long)@, old(short)@),
    ensures
        ({
            let zero = Double { bits: ZERO };
            let m = matched_close(old(long)@, old(short)@, zero, zero, zero);
            &&& final(long)@ == m.long
            &&& final(short)@ == m.short
            &&& r == (m.matched, m.pnl, m.spread)
        }),
        final(long)@.len() == 0 || final(short)@.len() == 0,
        close_matchable(final(long)@, final(short)@),
{
    let zero = Double { bits: ZERO };
    let mut matched = zero;
    let mut pnl = zero;
    let mut spread_value = zero;
    let ghost goal = matched_close(long@, short@, zero, zero, zero);
    while long.len() > 0 && short.len() > 0
        invariant
            close_matchable(long@, short@),
            matched_close(long@, short@, matched, pnl, spread_value) == goal,
        decreases long@.len() + short@.len(),
    {
        let l = long[0];
        let s = short[0];
        let amount = l.notional_usdt.min(s.notional_usdt);
        let long_rest = l.notional_usdt.sub(amount);
        let short_rest = s.notional_usdt.sub(amount);
        let ghost long_before = long@;
        let ghost short_before = short@;
        proof {
            lemma_one_is_used_up(l.notional_usdt, s.notional_usdt);
            lemma_rest_is_positive(l.notional_usdt, amount);
            lemma_rest_is_positive(s.notional_usdt, amount);
        }
        matched = matched.add(amount);
        pnl = pnl.add(amount.mul(l.pnl_ratio.add(s.pnl_ratio)));
        spread_value = spread_value.add(
            amount.mul(s.price.sub(l.price)).div(l.price.max(Double { bits: EPSILON })),
        );
        if long_rest.le(Double { bits: EPSILON }) {
            long.remove(0);
            proof {
                assert(long@ =~= long_before.drop_first());
            }
        } else {
            long[0] = CloseUnmatchedFill {
                notional_usdt: long_rest,
                pnl_ratio: l.pnl_ratio,
                price: l.price,
            };
        }
        if short_rest.le(Double { bits: EPSILON }) {
            short.remove(0);
            proof {
                assert(short@ =~= short_before.drop_first());
            }
        } else {
            short[0] = CloseUnmatchedFill {
                notional_usdt: short_rest,
                pnl_ratio: s.pnl_ratio,
                price: s.price,
            };
        }
        proof {
            assert(close_matchable(long@, short@)) by {
                assert forall|i: int| 0 < i < long@.len() implies (
                #[trigger] long@[i]).notional_usdt.finite() by {
                    if long@.len() < long_before.len() {
                        assert(long@[i] == long_before[i + 1]);
                    } else {
                        assert(long@[i] == long_before[i]);
                    }
                }
                assert forall|i: int| 0 < i < short@.len() implies (
                #[trigger] short@[i]).notional_usdt.finite() by {
                    if short@.len() < short_before.len() {
                        assert(short@[i] == short_before[i + 1]);
                    } else {
                        assert(short@[i] == short_before[i]);
                    }
                }
                if long@.len() > 0 && long@.len() < long_before.len() {
                    assert(long@[0] == long_before[1]);
                }
                if short@.len() > 0 && short@.len() < short_before.len() {
                    assert(short@[0] == short_before[1]);
                }
            }
        }
    }
    (matched, pnl, spread_value)
}

/// What is matched never comes from one side alone: matching stops only where
/// one side has nothing open.
pub proof fn lemma_guard_matching_exhausts(
    long: Seq<GuardUnmatchedFill>,
    short: Seq<GuardUnmatchedFill>,
    matched: Double,
    edge: Double,
)
    requires
        forall|i: int| 0 <= i < long.len() ==> (#[trigger] long[i]).notional_usdt.finite(),
        forall|i: int| 0 <= i < short.len() ==> (#[trigger] short[i]).notional_usdt.finite(),
    ensures
        matched_guard(long, short, matched, edge).long.len() == 0 || matched_guard(
            long,
            short,
            matched,
            edge,
        ).short.len() == 0,
{
    lemma_guard_matching_exhausts_from(long, short, matched, edge);
}

proof fn lemma_guard_matching_exhausts_from(
    long: Seq<GuardUnmatchedFill>,
    short: Seq<GuardUnmatchedFill>,
    matched: Double,
    edge: Double,
)
    requires
        guard_matchable(long, short),
    ensures
        matched_guard(long, short, matched, edge).long.len() == 0 || matched_guard(
            long,
            short,
            matched,
            edge,
        ).short.len() == 0,
    decreases long.len() + short.len(),
{
    if long.len() > 0 && short.len() > 0 {
        let l = long[0];
        let s = short[0];
        let amount = common(l.notional_usdt, s.notional_usdt);
        lemma_one_is_used_up(l.notional_usdt, s.notional_usdt);
        lemma_rest_is_positive(l.notional_usdt, amount);
        lemma_rest_is_positive(s.notional_usdt, amount);
        let next_long = if used_up(l.notional_usdt, amount) {
            long.drop_first()
        } else {
            long.update(
                0,
                GuardUnmatchedFill { notional_usdt: l.notional_usdt.sub_spec(amount), price: l.price },
            )
        };
        let next_short = if used_up(s.notional_usdt, amount) {
            short.drop_first()
        } else {
            short.update(
                0,
                GuardUnmatchedFill { notional_usdt: s.notional_usdt.sub_spec(amount), price: s.price },
            )
        };
        lemma_guard_matching_exhausts_from(
            next_long,
            next_short,
            matched.add_spec(amount),
            edge.add_spec(amount.mul_spec(s.price.sub_spec(l.price)).div_spec(l.price)),
        );
    }
}

} // verus!
