//! What holds of offers once more is known of them, and of the history of a route.

use crate::market::history::{gaps, is_route_point, is_spread_point, rate_at, HourPair};
use crate::market::scan::{averaged, charged, reprojected, worthwhile, BorrowCost};
use crate::models::{Opportunity, OpportunityHistoryPoint, SpreadHistoryPoint};
use crate::num::about::{
    fine, lemma_difference_is_near, lemma_gap_over, lemma_one_is_fine, lemma_product_is_near, one,
};
use crate::num::constants::{HUNDRED, YEAR_HOURS, ZERO};
use crate::num::double::{size, ONE_EXPONENT};
use crate::num::order::{
    lemma_neg_turns, lemma_product_monotone, lemma_product_sign, lemma_quotient_sign, lemma_sub_monotone,
    lemma_sub_tells_the_larger, lemma_zero_is_neutral, positive,
};
use crate::num::Double;
use crate::trading::quantities::lemma_order_sizes;
use crate::yields::lemma_size_scales;
use vstd::arithmetic::power2::lemma_pow2_pos;
use vstd::prelude::*;

verus! {

/// What is borrowed for a route is paid for: an offer pays less by the cost of it, and
/// is kept only where it still pays.
pub proof fn lemma_borrowing_is_a_cost(new: Opportunity, old: Opportunity, rate: Double)
    requires
        charged(new, old, BorrowCost::Rate(rate)),
        old.funding_per_hour.finite(),
        rate.finite(),
        !rate.negative(),
    ensures
        new.borrow_interest_per_hour == rate,
        new.funding_per_hour.le_spec(old.funding_per_hour),
        new.funding_per_hour.finite() ==> fine() * size(
            new.funding_per_hour.value() - (old.funding_per_hour.value() - rate.value()),
        ) <= size(old.funding_per_hour.value() - rate.value()),
        worthwhile(old, BorrowCost::Rate(rate)) <==> positive(new.funding_per_hour),
        positive(new.funding_per_hour) ==> rate.lt_spec(old.funding_per_hour),
        new.fees == old.fees && new.spread == old.spread,
{
    let zero = Double { bits: ZERO };
    let a = old.funding_per_hour;
    lemma_neg_turns(rate);
    assert(!a.sub_spec(rate).nan());
    lemma_zero_is_neutral(a);
    lemma_sub_monotone(a, a, rate, zero);
    lemma_sub_tells_the_larger(a, rate);
    if a.sub_spec(rate).finite() {
        lemma_difference_is_near(a, rate);
    }
}

/// Of two offers that are charged alike the one that paid more pays no less, and a
/// higher cost leaves no more.
pub proof fn lemma_a_higher_cost_leaves_less(
    new: Opportunity,
    old: Opportunity,
    rate: Double,
    other: Opportunity,
    higher: Double,
)
    requires
        charged(new, old, BorrowCost::Rate(rate)),
        charged(other, old, BorrowCost::Rate(higher)),
        rate.le_spec(higher),
        !new.funding_per_hour.nan(),
        !other.funding_per_hour.nan(),
        !old.funding_per_hour.nan(),
        !new.apy.nan(),
        !other.apy.nan(),
    ensures
        other.funding_per_hour.le_spec(new.funding_per_hour),
        other.apy.le_spec(new.apy),
{
    let a = old.funding_per_hour;
    lemma_sub_monotone(a, a, higher, rate);
    lemma_product_monotone(other.funding_per_hour, new.funding_per_hour, Double { bits: YEAR_HOURS });
}

/// The yield of an offer lies on the side of zero of what it pays in an hour, and is
/// that of a year of such hours.
pub proof fn lemma_a_yield_is_a_year_of_hours(
    new: Opportunity,
    old: Opportunity,
    averages: Option<(Double, Double)>,
    now: i64,
    rate: Double,
)
    requires
        reprojected(new, old, averages, now) || charged(new, old, BorrowCost::Rate(rate)),
        new.funding_per_hour.finite(),
    ensures
        ({
            let zero = Double { bits: ZERO };
            &&& !new.apy.nan()
            &&& zero.le_spec(new.funding_per_hour) ==> zero.le_spec(new.apy)
            &&& new.funding_per_hour.le_spec(zero) ==> new.apy.le_spec(zero)
            &&& new.apy.finite() ==> fine() * size(new.apy.value() - new.funding_per_hour.value() * 8760) <= size(
                new.funding_per_hour.value() * 8760,
            ) + fine()
        }),
{
    let year = Double { bits: YEAR_HOURS };
    let zero = Double { bits: ZERO };
    let x = new.funding_per_hour;
    let y = x.mul_spec(year);
    lemma_year();
    assert(!y.nan());
    lemma_product_sign(x, year);
    lemma_product_sign(zero, year);
    let u = one();
    let f = fine();
    lemma_pow2_pos(ONE_EXPONENT as nat);
    assert(crate::num::rounding::units(0) == 0);
    if new.apy == y && y.finite() {
        lemma_product_is_near(x, year);
        let a = y.value();
        let b = x.value();
        let c = b * 8760;
        assert(b * (8760 * u) == c * u && a * u - c * u == (a - c) * u) by (nonlinear_arith)
            requires
                c == b * 8760,
        ;
        assert(size((a - c) * u) == size(a - c) * u && size(c * u) == size(c) * u) by {
            lemma_size_scales(a - c, u);
            lemma_size_scales(c, u);
        }
        let s = size(a - c);
        let t = size(c);
        assert(f * s <= t + f) by (nonlinear_arith)
            requires
                f * (s * u) <= t * u + f * u,
                u > 0,
        ;
    }
    if x.zero() {
        assert(size(0) == 0);
    }
}

/// A year has eight thousand seven hundred and sixty hours.
pub proof fn lemma_year()
    ensures
        (Double { bits: YEAR_HOURS }).value() == 8760 * one(),
        (Double { bits: YEAR_HOURS }).finite(),
{
    crate::market::routes::lemma_constants();
}

/// How far a gap is from its average is the gap less the average: it is above it
/// where it is wider.
pub proof fn lemma_distance_is_from_the_average(new: Opportunity, old: Opportunity, average: Double)
    requires
        averaged(new, old, Some(average)),
        old.spread.finite(),
        average.finite(),
    ensures
        new.average_spread_24h == average,
        new.spread == old.spread,
        average.lt_spec(old.spread) ==> positive(new.spread_vs_average),
        old.spread.lt_spec(average) ==> new.spread_vs_average.lt_spec(Double { bits: ZERO }),
        new.spread_vs_average.finite() ==> fine() * size(
            new.spread_vs_average.value() - (old.spread.value() - average.value()),
        ) <= size(old.spread.value() - average.value()),
        new.funding_per_hour == old.funding_per_hour && new.apy == old.apy,
{
    lemma_neg_turns(average);
    assert(!old.spread.sub_spec(average).nan());
    lemma_sub_tells_the_larger(old.spread, average);
    if new.spread_vs_average.finite() {
        lemma_difference_is_near(old.spread, average);
    }
}

/// Whether a percentage is that by which one price is above another.
pub open spec fn is_percent_above(percent: Double, price: Double, base: Double) -> bool {
    let zero = Double { bits: ZERO };
    let gap = price.value() - base.value();
    &&& base.le_spec(price) && !percent.nan() ==> zero.le_spec(percent)
    &&& price.le_spec(base) && !percent.nan() ==> percent.le_spec(zero)
    &&& percent.finite() ==> fine() * size(percent.value() * base.value() - 100 * (gap * one())) <= 500 * (size(gap)
        * one()) + 102 * (fine() * base.value())
}

/// The history of a gap says by how many percent Bybit's price was above Binance's.
pub proof fn lemma_a_spread_point_tells_the_gap(
    point: SpreadHistoryPoint,
    pair: HourPair,
    binance_rates: Seq<(i64, Double)>,
    bybit_rates: Seq<(i64, Double)>,
)
    requires
        is_spread_point(point, pair, binance_rates, bybit_rates),
        point.binance_close.finite(),
        positive(point.binance_close),
        point.bybit_close.finite(),
    ensures
        is_percent_above(point.spread_percent, point.bybit_close, point.binance_close),
{
    lemma_percent(point.bybit_close, point.binance_close);
}

/// The history of a route says by how many percent the short leg was above the long
/// one.
pub proof fn lemma_a_route_point_tells_the_gap(
    point: OpportunityHistoryPoint,
    pair: HourPair,
    long_rates: Seq<(i64, Double)>,
    short_rates: Seq<(i64, Double)>,
)
    requires
        is_route_point(point, pair, long_rates, short_rates),
        point.long_close.finite(),
        positive(point.long_close),
        point.short_close.finite(),
    ensures
        is_percent_above(point.directional_spread_percent, point.short_close, point.long_close),
{
    lemma_percent(point.short_close, point.long_close);
}

proof fn lemma_percent(price: Double, base: Double)
    requires
        price.finite(),
        base.finite(),
        positive(base),
    ensures
        is_percent_above(price.sub_spec(base).div_spec(base).mul_spec(Double { bits: HUNDRED }), price, base),
{
    let zero = Double { bits: ZERO };
    let hundred = Double { bits: HUNDRED };
    let g = price.sub_spec(base);
    let z = g.div_spec(base);
    let p = z.mul_spec(hundred);
    lemma_neg_turns(base);
    assert(!g.nan());
    lemma_sub_tells_the_larger(price, base);
    lemma_quotient_sign(g, base);
    lemma_product_sign(z, hundred);
    lemma_product_sign(zero, hundred);
    if zero.le_spec(z) && !p.nan() {
        lemma_product_monotone(zero, z, hundred);
    }
    if z.le_spec(zero) && !p.nan() {
        lemma_product_monotone(z, zero, hundred);
    }
    if p.finite() {
        lemma_order_sizes();
        lemma_share_times(price, base, base, hundred, 100);
    }
}

/// A difference over a number, times a whole number.
pub proof fn lemma_share_times(a: Double, b: Double, c: Double, factor: Double, n: int)
    requires
        a.finite(),
        b.finite(),
        c.finite(),
        positive(c),
        factor.finite(),
        factor.value() == n * one(),
        1 <= n <= 10_000,
        a.sub_spec(b).div_spec(c).mul_spec(factor).finite(),
    ensures
        ({
            let p = a.sub_spec(b).div_spec(c).mul_spec(factor).value();
            let gap = a.value() - b.value();
            fine() * size(p * c.value() - n * (gap * one())) <= 5 * (n * (size(gap) * one())) + (n + 2) * (fine()
                * c.value())
        }),
{
    let zero = Double { bits: ZERO };
    let z = a.sub_spec(b).div_spec(c);
    let p = z.mul_spec(factor);
    lemma_neg_turns(b);
    assert(z.finite());
    lemma_gap_over(a, b, c);
    lemma_product_is_near(z, factor);
    let f = fine();
    let u = one();
    lemma_one_is_fine();
    lemma_pow2_pos(ONE_EXPONENT as nat);
    let gap = a.value() - b.value();
    let cv = c.value();
    let zv = z.value();
    let pv = p.value();
    crate::num::double::lemma_order_is_numeric(zero, c);
    assert(crate::num::rounding::units(0) == 0);
    // The product with the whole number.
    let nz = n * zv;
    let x = pv - nz;
    assert(zv * (n * u) == nz * u && pv * u - nz * u == x * u) by (nonlinear_arith)
        requires
            x == pv - nz,
            nz == n * zv,
    ;
    lemma_size_scales(x, u);
    lemma_size_scales(nz, u);
    lemma_size_scales(zv, n);
    let sx = size(x);
    let sz = size(zv);
    let nsz = n * sz;
    assert(size(zv * n) == sz * n && zv * n == nz && sz * n == nsz) by (nonlinear_arith)
        requires
            size(zv * n) == sz * n,
            nz == n * zv,
            nsz == n * sz,
    ;
    assert(size(nz) == nsz);
    assert(f * sx <= nsz + f) by (nonlinear_arith)
        requires
            f * (sx * u) <= nsz * u + f * u,
            u > 0,
    ;
    // The quotient.
    let w = size(gap) * u;
    let y = zv * cv - gap * u;
    lemma_size_scales(zv, cv);
    lemma_size_scales(gap, u);
    let zc = sz * cv;
    let fc = f * cv;
    assert(f * size(y) <= 3 * w + fc);
    assert(zc <= w + size(y));
    assert(size(y) <= w + cv) by (nonlinear_arith)
        requires
            f * size(y) <= 3 * w + fc,
            fc == f * cv,
            f == 0x20_0000_0000_0000,
            w >= 0,
    ;
    // Both.
    let ny = n * size(y);
    let e = pv * cv - n * (gap * u);
    assert(e == x * cv + n * y) by (nonlinear_arith)
        requires
            x == pv - nz,
            nz == n * zv,
            y == zv * cv - gap * u,
            e == pv * cv - n * (gap * u),
    ;
    lemma_size_scales(x, cv);
    lemma_size_scales(y, n);
    assert(y * n == n * y && size(y) * n == ny) by (nonlinear_arith)
        requires
            ny == n * size(y),
    ;
    let xc = sx * cv;
    assert(size(e) <= xc + ny);
    let nzc = n * zc;
    assert(f * xc <= nzc + fc) by (nonlinear_arith)
        requires
            f * sx <= nsz + f,
            nsz == n * sz,
            xc == sx * cv,
            zc == sz * cv,
            nzc == n * zc,
            fc == f * cv,
            cv > 0,
    ;
    let nw = n * w;
    let nc = n * cv;
    let nfc = n * fc;
    assert(nzc <= 2 * nw + nc) by (nonlinear_arith)
        requires
            zc <= 2 * w + cv,
            nzc == n * zc,
            nw == n * w,
            nc == n * cv,
            n >= 1,
    ;
    assert(f * ny <= 3 * nw + nfc) by (nonlinear_arith)
        requires
            f * size(y) <= 3 * w + fc,
            ny == n * size(y),
            nw == n * w,
            nfc == n * fc,
            n >= 1,
    ;
    assert(f * size(e) <= f * xc + f * ny) by (nonlinear_arith)
        requires
            size(e) <= xc + ny,
            f == 0x20_0000_0000_0000,
    ;
    assert(nc <= fc) by (nonlinear_arith)
        requires
            nc == n * cv,
            fc == f * cv,
            f == 0x20_0000_0000_0000,
            n <= 10_000,
            cv > 0,
    ;
    assert((n + 2) * fc == nfc + 2 * fc) by (nonlinear_arith)
        requires
            nfc == n * fc,
    ;
}

/// The gaps of a route are those of the short leg over the long one, hour by hour.
pub proof fn lemma_gaps_are_hour_by_hour(pairs: Seq<HourPair>, i: int)
    requires
        0 <= i < pairs.len(),
        pairs[i].first.finite(),
        positive(pairs[i].first),
        pairs[i].second.finite(),
    ensures
        ({
            let long = pairs[i].first;
            let short = pairs[i].second;
            let zero = Double { bits: ZERO };
            let (at, gap) = gaps(pairs)[i];
            &&& gaps(pairs).len() == pairs.len()
            &&& at == pairs[i].timestamp
            &&& long.le_spec(short) ==> zero.le_spec(gap)
            &&& short.le_spec(long) ==> gap.le_spec(zero)
            &&& gap.finite() ==> fine() * size(gap.value() * long.value() - (short.value() - long.value()) * one()) <= 3
                * (size(short.value() - long.value()) * one()) + fine() * long.value()
        }),
{
    let long = pairs[i].first;
    let short = pairs[i].second;
    let g = short.sub_spec(long);
    lemma_neg_turns(long);
    assert(!g.nan());
    lemma_sub_tells_the_larger(short, long);
    lemma_quotient_sign(g, long);
    if g.div_spec(long).finite() {
        lemma_gap_over(short, long, long);
    }
}

/// The rate that was known at a time is that of the last settlement up to then: one
/// of the list that came no later, and none that came between.
pub proof fn lemma_the_rate_is_the_last_one_known(rates: Seq<(i64, Double)>, at: i64)
    ensures
        match rate_at(rates, at) {
            Some(rate) => exists|i: int| #[trigger]
                is_last_up_to(rates, at, i) && rates[i].1 == rate,
            None => forall|i: int| 0 <= i < rates.len() ==> #[trigger] rates[i].0 > at,
        },
    decreases rates.len(),
{
    if rates.len() > 0 {
        let n = rates.len() - 1;
        if rates.last().0 <= at {
            assert(is_last_up_to(rates, at, n));
        } else {
            let before = rates.drop_last();
            lemma_the_rate_is_the_last_one_known(before, at);
            match rate_at(before, at) {
                Some(rate) => {
                    let i = choose|i: int| #[trigger] is_last_up_to(before, at, i) && before[i].1 == rate;
                    assert(is_last_up_to(rates, at, i)) by {
                        assert forall|j: int| i < j < rates.len() implies #[trigger] rates[j].0 > at by {
                            if j < n {
                                assert(before[j] == rates[j]);
                            }
                        }
                        assert(before[i] == rates[i]);
                    }
                },
                None => {
                    assert forall|i: int| 0 <= i < rates.len() implies #[trigger] rates[i].0 > at by {
                        if i < n {
                            assert(before[i] == rates[i]);
                        }
                    }
                },
            }
        }
    }
}

/// Whether an entry of a list is the last one up to a time.
pub open spec fn is_last_up_to(rates: Seq<(i64, Double)>, at: i64, i: int) -> bool {
    &&& 0 <= i < rates.len()
    &&& rates[i].0 <= at
    &&& forall|j: int| i < j < rates.len() ==> #[trigger] rates[j].0 > at
}

} // verus!
